//! Readers for containers that were written in older layouts.
use crate::error::storage_error;
use crate::error::ErrorKind;
use crate::error::TdoResult;
use crate::list::todo_views;
use crate::list::ListModel;
use crate::list::TodoList;
use crate::tdo::current_version;
use crate::tdo::list_views;
use crate::tdo::version_tag;
use crate::tdo::Tdo;
use crate::tdo::TdoModel;
use crate::todo::Todo;
use crate::todo::TodoModel;
use crate::tree::fraction_runs_short;
use crate::tree::fraction_runs_within;
use crate::tree::json_doc;
use crate::tree::json_entries;
use crate::tree::json_parsed;
use crate::tree::JsonDoc;
use crate::tree::MAX_DIGIT_RUN;
use json::JsonValue;
use vstd::prelude::*;
use vstd::string::StringSliceAdditionalSpecFns;

verus! {

/// A container as the previous layout stored it: the lists and a version tag, without a
/// github token and without github issues.
#[derive(Debug)]
pub struct Tdo01 {
    /// The todo lists.
    pub lists: Vec<TodoList>,
    /// The version of the crate that wrote the container.
    pub version: String,
}

impl Tdo01 {
    /// The container in today's layout: the same lists, no token, today's version tag.
    pub fn into_tdo(self) -> (r: Tdo)
        ensures
            r@ == (TdoModel {
                lists: list_views(self.lists@),
                access_token: None,
                version: current_version(),
            }),
    {
        Tdo { lists: self.lists, access_token: None, version: version_tag() }
    }
}

impl Clone for Tdo01 {
    fn clone(&self) -> (r: Tdo01)
        ensures
            list_views(r.lists@) == list_views(self.lists@),
            r.version@ == self.version@,
    {
        let mut lists: Vec<TodoList> = Vec::new();
        let mut i: usize = 0;
        while i < self.lists.len()
            invariant
                i <= self.lists.len(),
                lists@.len() == i,
                forall|j: int| 0 <= j < i ==> (#[trigger] lists@[j])@ == self.lists@[j]@,
            decreases self.lists.len() - i,
        {
            let list = self.lists[i].clone();
            lists.push(list);
            i += 1;
        }
        assert(list_views(lists@) =~= list_views(self.lists@));
        Tdo01 { lists, version: self.version.clone() }
    }
}

/// `core::num::ParseIntError`, the reason why a text is no integer.
#[verifier::external_type_specification]
#[verifier::external_body]
pub struct ExParseIntError(core::num::ParseIntError);

/// Whether `c` is one of the ten decimal digits.
pub open spec fn is_digit(c: char) -> bool {
    '0' <= c && c <= '9'
}

/// The number that a sequence of decimal digits writes.
pub open spec fn digits_value(s: Seq<char>) -> nat
    decreases s.len(),
{
    if s.len() == 0 {
        0
    } else {
        digits_value(s.drop_last()) * 10 + (s.last() as u32 - '0' as u32) as nat
    }
}

/// Every character of `s` is a decimal digit.
pub open spec fn all_digits(s: Seq<char>) -> bool {
    forall|i: int| 0 <= i < s.len() ==> is_digit(#[trigger] s[i])
}

/// The `u32` that a run of characters writes: one or more decimal digits whose value fits.
pub open spec fn unsigned_u32(digits: Seq<char>) -> Option<u32> {
    if digits.len() > 0 && all_digits(digits) && digits_value(digits) <= u32::MAX {
        Some(digits_value(digits) as u32)
    } else {
        None
    }
}

/// The `u32` that a text writes: an optional `+`, then one or more decimal digits whose
/// value fits. Any other text writes none.
pub open spec fn decimal_u32(s: Seq<char>) -> Option<u32> {
    if s.len() > 0 && s[0] == '+' {
        unsigned_u32(s.skip(1))
    } else {
        unsigned_u32(s)
    }
}

/// `str::parse::<u32>` of std: accepts an optional `+` followed by decimal digits only, and
/// refuses the empty text, a sign alone, any other character, and a value above `u32::MAX`.
#[verifier::external_body]
fn parse_u32(key: &str) -> (r: Result<u32, core::num::ParseIntError>)
    ensures
        match r {
            Ok(id) => decimal_u32(key@) == Some(id),
            Err(_) => decimal_u32(key@) is None,
        },
{
    key.parse::<u32>()
}

/// The todo that one entry of the oldest layout stands for. Its key writes the id; its
/// value is an array of exactly two members, the title and then the done flag. An entry of
/// any other shape stands for no todo.
pub open spec fn entry_todo(key: Seq<char>, value: JsonDoc) -> Option<TodoModel> {
    if value.members().len() == 2 {
        match (decimal_u32(key), value.members()[1].as_bool(), value.members()[0].as_text()) {
            (Some(id), Some(done), Some(title)) => Some(
                TodoModel { id, name: title, done, github: None },
            ),
            _ => None,
        }
    } else {
        None
    }
}

/// The document is an object, and every entry of it stands for a todo.
pub open spec fn entries_convert(list: JsonDoc) -> bool {
    list is Object && forall|j: int|
        0 <= j < list.entries().len() ==> entry_todo(
            (#[trigger] list.entries()[j]).0,
            list.entries()[j].1,
        ) is Some
}

/// The list that an object of the oldest layout stands for, one todo for each entry.
pub open spec fn entries_list(name: Seq<char>, list: JsonDoc) -> ListModel {
    ListModel {
        name,
        list: Seq::new(
            list.entries().len(),
            |j: int| entry_todo(list.entries()[j].0, list.entries()[j].1).unwrap(),
        ),
    }
}

/// The document can be read as a container in the oldest layout: it is an object, the
/// value of each of its entries is an object, and every entry of those stands for a todo.
pub open spec fn tree_converts(doc: JsonDoc) -> bool {
    doc is Object && forall|i: int|
        0 <= i < doc.entries().len() ==> entries_convert((#[trigger] doc.entries()[i]).1)
}

/// The container that a document in the oldest layout stands for: one list for each entry
/// of the document, named by its key.
pub open spec fn tree_container(doc: JsonDoc) -> TdoModel {
    TdoModel {
        lists: Seq::new(
            doc.entries().len(),
            |i: int| entries_list(doc.entries()[i].0, doc.entries()[i].1),
        ),
        access_token: None,
        version: current_version(),
    }
}

/// Builds the todo of one entry of the oldest layout from what was read of it: the key, and
/// the done flag and the title as far as the entry's value held them.
pub fn legacy_todo(key: &str, done: Option<bool>, title: Option<&str>) -> (r: TdoResult<Todo>)
    ensures
        match (decimal_u32(key@), done, title) {
            (Some(id), Some(d), Some(t)) => match r {
                Ok(todo) => todo@ == (TodoModel { id, name: t@, done: d, github: None }),
                Err(_) => false,
            },
            _ => r == Err::<Todo, ErrorKind>(
                ErrorKind::StorageError(storage_error::ErrorKind::UnableToConvert),
            ),
        },
{
    let tdo_id = match parse_u32(key) {
        Ok(id) => id,
        Err(_) => return Err(
            ErrorKind::StorageError(storage_error::ErrorKind::UnableToConvert),
        ),
    };
    let done = match done {
        Some(x) => x,
        None => return Err(ErrorKind::StorageError(storage_error::ErrorKind::UnableToConvert)),
    };
    let tdo_name = match title {
        Some(x) => x,
        None => return Err(ErrorKind::StorageError(storage_error::ErrorKind::UnableToConvert)),
    };
    let mut todo = Todo::new(tdo_id, tdo_name, None);
    if done {
        todo.set_done();
    }
    Ok(todo)
}

/// Reads one list of the oldest layout from the object that holds its entries. A value that
/// is no object, and an entry whose value is not an array of a title and a done flag, cannot
/// be converted.
pub fn legacy_list(name: &str, entries: &JsonValue) -> (r: TdoResult<TodoList>)
    ensures
        match r {
            Ok(l) => entries_convert(json_doc(*entries)) && l@ == entries_list(
                name@,
                json_doc(*entries),
            ),
            Err(e) => e == ErrorKind::StorageError(storage_error::ErrorKind::UnableToConvert)
                && !entries_convert(json_doc(*entries)),
        },
{
    let ghost doc = json_doc(*entries);
    if !entries.is_object() {
        return Err(ErrorKind::StorageError(storage_error::ErrorKind::UnableToConvert));
    }
    let mut list = TodoList::new(name);
    let mut items = json_entries(entries);
    let mut j: usize = 0;
    while j < items.len()
        invariant
            j <= items.len(),
            doc == json_doc(*entries),
            items@.len() == doc.entries().len(),
            forall|i: int|
                j <= i < items@.len() ==> (#[trigger] items@[i]).0@ == doc.entries()[i].0
                    && json_doc(items@[i].1) == doc.entries()[i].1,
            list@.name == name@,
            list@.list.len() == j,
            forall|i: int|
                0 <= i < j ==> entry_todo((#[trigger] doc.entries()[i]).0, doc.entries()[i].1)
                    == Some(list@.list[i]),
        decreases items.len() - j,
    {
        let ghost before = list@.list;
        if items[j].1.len() != 2 {
            assert(entry_todo(doc.entries()[j as int].0, doc.entries()[j as int].1) is None);
            return Err(ErrorKind::StorageError(storage_error::ErrorKind::UnableToConvert));
        }
        let done = items[j].1.pop().as_bool();
        let last = items[j].1.pop();
        let todo = match legacy_todo(items[j].0.as_str(), done, last.as_str()) {
            Ok(t) => t,
            Err(e) => {
                assert(entry_todo(doc.entries()[j as int].0, doc.entries()[j as int].1) is None);
                return Err(e);
            },
        };
        list.add(todo);
        assert(forall|i: int| 0 <= i < j ==> list@.list[i] == before[i]);
        j += 1;
    }
    assert(list@.list =~= entries_list(name@, doc).list);
    Ok(list)
}

/// Reads a container of the oldest layout from its JSON tree. The document is an object
/// whose keys name the lists and whose values hold their entries; a document of any other
/// shape cannot be converted.
pub fn legacy_container(tree: &JsonValue) -> (r: TdoResult<Tdo>)
    ensures
        match r {
            Ok(t) => tree_converts(json_doc(*tree)) && t@ == tree_container(json_doc(*tree)),
            Err(e) => e == ErrorKind::StorageError(storage_error::ErrorKind::UnableToConvert)
                && !tree_converts(json_doc(*tree)),
        },
{
    let ghost doc = json_doc(*tree);
    if !tree.is_object() {
        return Err(ErrorKind::StorageError(storage_error::ErrorKind::UnableToConvert));
    }
    let mut lists: Vec<TodoList> = Vec::new();
    let outer = json_entries(tree);
    let mut i: usize = 0;
    while i < outer.len()
        invariant
            i <= outer.len(),
            doc == json_doc(*tree),
            outer@.len() == doc.entries().len(),
            forall|k: int|
                0 <= k < outer@.len() ==> (#[trigger] outer@[k]).0@ == doc.entries()[k].0
                    && json_doc(outer@[k].1) == doc.entries()[k].1,
            lists@.len() == i,
            forall|k: int|
                0 <= k < i ==> entries_convert((#[trigger] doc.entries()[k]).1) && lists@[k]@
                    == entries_list(doc.entries()[k].0, doc.entries()[k].1),
        decreases outer.len() - i,
    {
        let list = match legacy_list(outer[i].0.as_str(), &outer[i].1) {
            Ok(l) => l,
            Err(e) => {
                assert(!entries_convert(doc.entries()[i as int].1));
                return Err(e);
            },
        };
        lists.push(list);
        i += 1;
    }
    let tdo = Tdo { lists: lists, access_token: None, version: version_tag() };
    assert(tdo@.lists =~= tree_container(doc).lists);
    Ok(tdo)
}

/// What reading the text of a file in the oldest layout gives. The file is corrupted where
/// the text holds a number with more than `MAX_DIGIT_RUN` digits in its fraction, which the
/// JSON reader cannot take, or is no JSON document; it
/// cannot be converted where the document has not the shape of the oldest layout; and else
/// it gives the container that the document stands for.
pub open spec fn text_outcome(text: &str) -> Result<TdoModel, ErrorKind> {
    if !fraction_runs_within(text.spec_bytes(), MAX_DIGIT_RUN as nat) {
        Err(ErrorKind::StorageError(storage_error::ErrorKind::FileCorrupted))
    } else {
        match json_parsed(text@) {
            None => Err(ErrorKind::StorageError(storage_error::ErrorKind::FileCorrupted)),
            Some(doc) => if tree_converts(doc) {
                Ok(tree_container(doc))
            } else {
                Err(ErrorKind::StorageError(storage_error::ErrorKind::UnableToConvert))
            },
        }
    }
}

/// The view of a loaded container, or the error in its place.
pub open spec fn result_view(r: TdoResult<Tdo>) -> Result<TdoModel, ErrorKind> {
    match r {
        Ok(t) => Ok(t@),
        Err(e) => Err(e),
    }
}

/// What loading a file gives. `current` is the file read in today's layout and `legacy` the
/// file read in the previous layout, each where the file could be read so; `data` is the
/// text of the file. Today's layout is tried first, then the previous one, then the oldest.
pub fn load_decoded(current: Option<Tdo>, legacy: Option<Tdo01>, data: &str) -> (r: TdoResult<
    Tdo,
>)
    ensures
        match current {
            Some(tdo) => r == Ok::<Tdo, ErrorKind>(tdo),
            None => result_view(r) == match legacy {
                Some(old_tdo) => Ok(
                    TdoModel {
                        lists: list_views(old_tdo.lists@),
                        access_token: None,
                        version: current_version(),
                    },
                ),
                None => text_outcome(data),
            },
        },
{
    match current {
        Some(tdo) => Ok(tdo),
        None => update_json(legacy, data),
    }
}

/// Brings a file that is no container of today's layout up to date. `legacy` is the file
/// read in the previous layout, where it could be read so; `data` is the text of the file,
/// which is read as a JSON tree in the oldest layout where `legacy` is missing.
pub fn update_json(legacy: Option<Tdo01>, data: &str) -> (r: TdoResult<Tdo>)
    ensures
        result_view(r) == match legacy {
            Some(old_tdo) => Ok(
                TdoModel {
                    lists: list_views(old_tdo.lists@),
                    access_token: None,
                    version: current_version(),
                },
            ),
            None => text_outcome(data),
        },
{
    match legacy {
        Some(tdo) => Ok(tdo.into_tdo()),
        None => {
            if !fraction_runs_short(data) {
                return Err(ErrorKind::StorageError(storage_error::ErrorKind::FileCorrupted));
            }
            let json = match json::parse(data) {
                Ok(content) => content,
                Err(_) => {
                    return Err(ErrorKind::StorageError(storage_error::ErrorKind::FileCorrupted))
                },
            };
            legacy_container(&json)
        },
    }
}

} // verus!
