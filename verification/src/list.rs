//! The ordered list, kept in the store as one record: it is read whole,
//! changed in memory, and written back whole.

use vstd::prelude::*;
use vstd::seq_lib::to_multiset_insert;
use vstd::string::*;
use crate::decimal::{parse_decimal, parsed};
use crate::failure::Failure;
use crate::json::{json_array_text, to_json_array};
use crate::store::{Fetched, StoreWrite, LIST_KEY};

verus! {

/// The items in order. Position is the only ordering signal: indices start
/// at zero and have no gaps.
#[derive(Clone, Debug, PartialEq, Eq)]
pub struct ListManager {
    pub mut_value: Vec<String>,
}

impl View for ListManager {
    type V = Seq<Seq<char>>;

    open spec fn view(&self) -> Seq<Seq<char>> {
        self.mut_value.deep_view()
    }
}

/// The list after the item at `from` was taken out and put back at `to`,
/// where `to` counts positions in the list without that item.
pub open spec fn moved(items: Seq<Seq<char>>, from: int, to: int) -> Seq<Seq<char>> {
    items.remove(from).insert(to, items[from])
}

/// What precedes the array in the stored record.
pub open spec fn document_head() -> Seq<char> {
    "{\"value\":"@
}

/// What follows the array in the stored record.
pub open spec fn document_tail() -> Seq<char> {
    "}"@
}

/// The stored record of a list: an object whose one member, `value`, is the
/// array of the items.
pub open spec fn list_document(items: Seq<Seq<char>>) -> Seq<char> {
    document_head() + json_array_text(items) + document_tail()
}

/// Parses a field that holds an index.
pub fn parse_index(field: &str) -> (index: Result<usize, Failure>)
    ensures
        match index {
            Ok(i) => parsed(field@, usize::MAX as nat) == Some(i as nat),
            Err(e) => e == Failure::Parse && parsed(field@, usize::MAX as nat) is None,
        },
{
    match parse_decimal(field, usize::MAX as u64) {
        Some(n) => Ok(n as usize),
        None => Err(Failure::Parse),
    }
}

/// Wraps the serialised array into the stored record, or reports that the
/// items could not be serialised.
pub fn frame_document(encoded: Result<String, serde_json::Error>) -> (document: Result<String, Failure>)
    ensures
        match encoded {
            Ok(array) => document matches Ok(text) && text@ == document_head() + array@
                + document_tail(),
            Err(_) => document == Err::<String, Failure>(Failure::StoreWrite),
        },
{
    match encoded {
        Ok(array) => {
            let mut text = "{\"value\":".to_owned();
            text.append(array.as_str());
            text.append("}");
            Ok(text)
        },
        Err(_) => Err(Failure::StoreWrite),
    }
}

impl ListManager {
    /// Takes over the list that was read from the store.
    pub fn new(fetched: Fetched<Vec<String>>) -> (loaded: Result<ListManager, Failure>)
        ensures
            match fetched {
                Fetched::Found(items) => loaded matches Ok(list) && list.mut_value == items,
                Fetched::Absent => loaded matches Err(e) && e == Failure::NotFound,
                Fetched::Malformed => loaded matches Err(e) && e == Failure::Decode,
                Fetched::Unreachable => loaded matches Err(e) && e == Failure::StoreRead,
            },
    {
        match fetched.into_result() {
            Ok(items) => Ok(ListManager { mut_value: items }),
            Err(e) => Err(e),
        }
    }

    /// Puts `item` behind the last element.
    pub fn append(&mut self, item: String)
        ensures
            final(self)@ == old(self)@.push(item@),
            final(self)@.len() == old(self)@.len() + 1,
            final(self)@.last() == item@,
    {
        self.mut_value.push(item);
        assert(self@ =~= old(self)@.push(item@));
    }

    /// Takes the item at `from` out and puts it back at `to`, where `to`
    /// counts positions in the list without that item.
    pub fn move_item(&mut self, from: usize, to: usize) -> (done: Result<(), Failure>)
        ensures
            done is Err <==> from >= old(self)@.len() || to >= old(self)@.len(),
            done matches Err(e) ==> e == Failure::IndexOutOfRange && *final(self) == *old(self),
            done is Ok ==> final(self)@ == moved(old(self)@, from as int, to as int),
    {
        let len = self.mut_value.len();
        if from >= len || to >= len {
            return Err(Failure::IndexOutOfRange);
        }
        let item = self.mut_value.remove(from);
        self.mut_value.insert(to, item);
        assert(self@ =~= moved(old(self)@, from as int, to as int));
        Ok(())
    }

    /// Removes the item at `index`; the others keep their order.
    pub fn delete_at(&mut self, index: usize) -> (done: Result<(), Failure>)
        ensures
            done is Err <==> index >= old(self)@.len(),
            done matches Err(e) ==> e == Failure::IndexOutOfRange && *final(self) == *old(self),
            done is Ok ==> final(self)@ == old(self)@.remove(index as int),
            done is Ok ==> final(self)@.len() == old(self)@.len() - 1,
    {
        if index >= self.mut_value.len() {
            return Err(Failure::IndexOutOfRange);
        }
        let _ = self.mut_value.remove(index);
        assert(self@ =~= old(self)@.remove(index as int));
        Ok(())
    }

    /// The stored record of the list, which is also what a caller is shown.
    /// Every list has one: the call never fails.
    pub fn get_str(&self) -> (document: Result<String, Failure>)
        ensures
            document is Ok,
            document matches Ok(text) ==> text@ == list_document(self@),
    {
        frame_document(to_json_array(&self.mut_value))
    }

    /// The write that persists the list: its record, under the list's key.
    /// Every list has one: the call never fails.
    pub fn update(&self) -> (write: Result<StoreWrite, Failure>)
        ensures
            write is Ok,
            write matches Ok(w) ==> w.key@ == LIST_KEY@ && w.value@ == list_document(self@),
    {
        match self.get_str() {
            Ok(value) => Ok(StoreWrite { key: LIST_KEY.to_owned(), value }),
            Err(e) => Err(e),
        }
    }
}

/// A move loses and adds nothing. The list is as long as before and holds
/// every item as often as before, the moved item stands at `to`, and the
/// other items stand in the order in which they stood.
pub proof fn lemma_move_keeps_items(items: Seq<Seq<char>>, from: int, to: int)
    requires
        0 <= from < items.len(),
        0 <= to < items.len(),
    ensures
        moved(items, from, to).len() == items.len(),
        moved(items, from, to)[to] == items[from],
        moved(items, from, to).remove(to) == items.remove(from),
        moved(items, from, to).to_multiset() == items.to_multiset(),
{
    let rest = items.remove(from);
    let after = moved(items, from, to);
    assert(after.remove(to) =~= rest);
    assert(rest.insert(from, items[from]) =~= items);
    to_multiset_insert(rest, to, items[from]);
    to_multiset_insert(rest, from, items[from]);
}

/// Moving an item back undoes the move.
pub proof fn lemma_move_back(items: Seq<Seq<char>>, from: int, to: int)
    requires
        0 <= from < items.len(),
        0 <= to < items.len(),
    ensures
        moved(moved(items, from, to), to, from) == items,
{
    let after = moved(items, from, to);
    assert(after.remove(to) =~= items.remove(from));
    assert(items.remove(from).insert(from, items[from]) =~= items);
}

/// Deleting what was just appended gives the list back.
pub proof fn lemma_delete_undoes_append(items: Seq<Seq<char>>, item: Seq<char>)
    ensures
        items.push(item).remove(items.len() as int) == items,
{
    assert(items.push(item).remove(items.len() as int) =~= items);
}

} // verus!
