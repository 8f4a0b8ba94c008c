//! A JSON document as a tree of plain values, and the lookups that the reply
//! reader makes in it.

use crate::text::same_text;
use vstd::prelude::*;

verus! {

/// A JSON value. A whole number that fits is held as an integer, and any
/// other number as the text it is written with; an object keeps its members
/// in the order in which they were given.
#[derive(Debug)]
pub enum Json {
    Null,
    Bool(bool),
    Integer(i64),
    Number(String),
    Text(String),
    Array(Vec<Json>),
    Object(Vec<(String, Json)>),
}

/// Position of the first member called `key` among `members`, from
/// position `from` on; the number of members where there is none.
pub open spec fn member_index(members: Seq<(String, Json)>, key: Seq<char>, from: int) -> int
    decreases members.len() - from,
{
    if from < 0 || from >= members.len() {
        members.len() as int
    } else if members[from].0@ == key {
        from
    } else {
        member_index(members, key, from + 1)
    }
}

/// Position of the first member called `key`; the number of members where
/// there is none.
fn find_member(members: &Vec<(String, Json)>, key: &str) -> (i: usize)
    ensures
        i == member_index(members@, key@, 0),
{
    let mut i: usize = 0;
    while i < members.len()
        invariant
            i <= members@.len(),
            member_index(members@, key@, 0) == member_index(members@, key@, i as int),
        decreases members@.len() - i,
    {
        if same_text(members[i].0.as_str(), key) {
            return i;
        }
        i = i + 1;
    }
    i
}

impl Json {
    /// The member called `key`, where this is an object that has one: the
    /// first of that name.
    pub open spec fn member(self, key: Seq<char>) -> Option<Json> {
        match self {
            Json::Object(members) => {
                let i = member_index(members@, key, 0);
                if i < members@.len() {
                    Some(members@[i].1)
                } else {
                    None
                }
            },
            _ => None,
        }
    }

    /// The item at `index`, where this is an array that long.
    pub open spec fn item(self, index: int) -> Option<Json> {
        match self {
            Json::Array(items) => if 0 <= index < items@.len() {
                Some(items@[index])
            } else {
                None
            },
            _ => None,
        }
    }

    /// The characters of this value, where it is a string.
    pub open spec fn text(self) -> Option<Seq<char>> {
        match self {
            Json::Text(s) => Some(s@),
            _ => None,
        }
    }

    /// The member called `key` of an object; `None` for a missing member
    /// and for a value that is no object.
    pub fn get(&self, key: &str) -> (found: Option<&Json>)
        ensures
            found.is_some() == self.member(key@).is_some(),
            found matches Some(j) ==> Some(*j) == self.member(key@),
    {
        match self {
            Json::Object(members) => {
                let i = find_member(members, key);
                if i < members.len() {
                    Some(&members[i].1)
                } else {
                    None
                }
            },
            _ => None,
        }
    }

    /// The item at `index` of an array; `None` past its end and for a value
    /// that is no array.
    pub fn at(&self, index: usize) -> (found: Option<&Json>)
        ensures
            found.is_some() == self.item(index as int).is_some(),
            found matches Some(j) ==> Some(*j) == self.item(index as int),
    {
        match self {
            Json::Array(items) => if index < items.len() {
                Some(&items[index])
            } else {
                None
            },
            _ => None,
        }
    }

    /// The text of a string; `None` for every other value.
    pub fn as_str(&self) -> (found: Option<&str>)
        ensures
            found.is_some() == self.text().is_some(),
            found matches Some(s) ==> Some(s@) == self.text(),
    {
        match self {
            Json::Text(s) => Some(s.as_str()),
            _ => None,
        }
    }
}

} // verus!
