//! Decoded JSON documents, as far as the engine reads them.

use vstd::prelude::*;
use crate::number::Number;
use crate::text::same_text;

verus! {

/// A JSON value.
#[derive(Debug, PartialEq)]
pub enum Json {
    Null,
    Bool(bool),
    /// A whole number that is not negative.
    Count(u64),
    /// A whole number below zero.
    Negative(i64),
    /// Any other number. The engine reads none of these.
    Fraction,
    Text(String),
    List(Vec<Json>),
    Record(Vec<(String, Json)>),
}

/// The first member named `key`.
pub open spec fn member_of(members: Seq<(String, Json)>, key: Seq<char>) -> Option<Json>
    decreases members.len(),
{
    if members.len() == 0 {
        None
    } else if members[0].0@ == key {
        Some(members[0].1)
    } else {
        member_of(members.drop_first(), key)
    }
}

impl Json {
    pub open spec fn member(self, key: Seq<char>) -> Option<Json> {
        match self {
            Json::Record(members) => member_of(members@, key),
            _ => None,
        }
    }

    pub open spec fn as_text(self) -> Option<Seq<char>> {
        match self {
            Json::Text(text) => Some(text@),
            _ => None,
        }
    }

    pub open spec fn as_count(self) -> Option<u64> {
        match self {
            Json::Count(n) => Some(n),
            _ => None,
        }
    }

    pub open spec fn as_integer(self) -> Option<i64> {
        match self {
            Json::Count(n) => if n <= i64::MAX {
                Some(n as i64)
            } else {
                None
            },
            Json::Negative(n) => Some(n),
            _ => None,
        }
    }

    pub open spec fn as_list(self) -> Option<Seq<Json>> {
        match self {
            Json::List(items) => Some(items@),
            _ => None,
        }
    }

    /// The number that a text holds: the venue encodes every number as a text.
    pub open spec fn as_number<S: Number>(self) -> Option<S> {
        match self.as_text() {
            Some(text) => S::reading(text),
            None => None,
        }
    }

    pub open spec fn text_at(self, key: Seq<char>) -> Option<Seq<char>> {
        match self.member(key) {
            Some(value) => value.as_text(),
            None => None,
        }
    }

    pub open spec fn text_or_empty(self, key: Seq<char>) -> Seq<char> {
        match self.text_at(key) {
            Some(text) => text,
            None => Seq::empty(),
        }
    }

    pub open spec fn list_at(self, key: Seq<char>) -> Option<Seq<Json>> {
        match self.member(key) {
            Some(value) => value.as_list(),
            None => None,
        }
    }

    pub open spec fn count_at(self, key: Seq<char>) -> Option<u64> {
        match self.member(key) {
            Some(value) => value.as_count(),
            None => None,
        }
    }

    pub open spec fn integer_at(self, key: Seq<char>) -> Option<i64> {
        match self.member(key) {
            Some(value) => value.as_integer(),
            None => None,
        }
    }

    pub open spec fn number_at<S: Number>(self, key: Seq<char>) -> Option<S> {
        match self.member(key) {
            Some(value) => value.as_number::<S>(),
            None => None,
        }
    }

    pub open spec fn number_or_zero<S: Number>(self, key: Seq<char>) -> S {
        match self.number_at::<S>(key) {
            Some(n) => n,
            None => S::of_ratio(0, 1),
        }
    }

    /// The member named `key` of a record.
    pub fn get(&self, key: &str) -> (r: Option<&Json>)
        ensures
            match r {
                Some(value) => self.member(key@) == Some(*value),
                None => self.member(key@) is None,
            },
    {
        match self {
            Json::Record(members) => {
                let mut i: usize = 0;
                assert(members@.skip(0) =~= members@);
                while i < members.len()
                    invariant
                        i <= members@.len(),
                        self.member(key@) == member_of(members@.skip(i as int), key@),
                    decreases members@.len() - i,
                {
                    assert(members@.skip(i as int).drop_first() =~= members@.skip(i + 1));
                    if same_text(members[i].0.as_str(), key) {
                        return Some(&members[i].1);
                    }
                    i = i + 1;
                }
                None
            },
            _ => None,
        }
    }

    pub fn text(&self) -> (r: Option<&String>)
        ensures
            match r {
                Some(text) => self.as_text() == Some(text@),
                None => self.as_text() is None,
            },
    {
        match self {
            Json::Text(text) => Some(text),
            _ => None,
        }
    }

    pub fn count(&self) -> (r: Option<u64>)
        ensures
            r == self.as_count(),
    {
        match self {
            Json::Count(n) => Some(*n),
            _ => None,
        }
    }

    pub fn integer(&self) -> (r: Option<i64>)
        ensures
            r == self.as_integer(),
    {
        match self {
            Json::Count(n) => if *n <= i64::MAX as u64 {
                Some(*n as i64)
            } else {
                None
            },
            Json::Negative(n) => Some(*n),
            _ => None,
        }
    }

    pub fn list(&self) -> (r: Option<&Vec<Json>>)
        ensures
            match r {
                Some(items) => self.as_list() == Some(items@),
                None => self.as_list() is None,
            },
    {
        match self {
            Json::List(items) => Some(items),
            _ => None,
        }
    }

    pub fn number<S: Number>(&self) -> (r: Option<S>)
        ensures
            r == self.as_number::<S>(),
    {
        match self {
            Json::Text(text) => S::parse(text.as_str()),
            _ => None,
        }
    }

    pub fn get_text(&self, key: &str) -> (r: Option<&String>)
        ensures
            match r {
                Some(text) => self.text_at(key@) == Some(text@),
                None => self.text_at(key@) is None,
            },
    {
        match self.get(key) {
            Some(value) => value.text(),
            None => None,
        }
    }

    /// The text of a member, empty where there is none.
    pub fn get_text_or_empty(&self, key: &str) -> (r: String)
        ensures
            r@ == self.text_or_empty(key@),
    {
        match self.get_text(key) {
            Some(text) => text.clone(),
            None => {
                let empty = String::new();
                assert(empty@ =~= Seq::empty());
                empty
            },
        }
    }

    pub fn get_list(&self, key: &str) -> (r: Option<&Vec<Json>>)
        ensures
            match r {
                Some(items) => self.list_at(key@) == Some(items@),
                None => self.list_at(key@) is None,
            },
    {
        match self.get(key) {
            Some(value) => value.list(),
            None => None,
        }
    }

    pub fn get_count(&self, key: &str) -> (r: Option<u64>)
        ensures
            r == self.count_at(key@),
    {
        match self.get(key) {
            Some(value) => value.count(),
            None => None,
        }
    }

    pub fn get_integer(&self, key: &str) -> (r: Option<i64>)
        ensures
            r == self.integer_at(key@),
    {
        match self.get(key) {
            Some(value) => value.integer(),
            None => None,
        }
    }

    pub fn get_number<S: Number>(&self, key: &str) -> (r: Option<S>)
        ensures
            r == self.number_at::<S>(key@),
    {
        match self.get(key) {
            Some(value) => value.number(),
            None => None,
        }
    }

    pub fn get_number_or_zero<S: Number>(&self, key: &str) -> (r: S)
        ensures
            r == self.number_or_zero::<S>(key@),
    {
        match self.get_number::<S>(key) {
            Some(n) => n,
            None => S::ratio(0, 1),
        }
    }
}

/// The first item whose member `key` is the text `value`.
pub open spec fn item_with(items: Seq<Json>, key: Seq<char>, value: Seq<char>) -> Option<Json>
    decreases items.len(),
{
    if items.len() == 0 {
        None
    } else if items[0].text_at(key) == Some(value) {
        Some(items[0])
    } else {
        item_with(items.drop_first(), key, value)
    }
}

/// Finds the first item whose member `key` is the text `value`.
pub fn find_item<'a>(items: &'a Vec<Json>, key: &str, value: &str) -> (r: Option<&'a Json>)
    ensures
        match r {
            Some(item) => item_with(items@, key@, value@) == Some(*item),
            None => item_with(items@, key@, value@) is None,
        },
{
    let mut i: usize = 0;
    assert(items@.skip(0) =~= items@);
    while i < items.len()
        invariant
            i <= items@.len(),
            item_with(items@, key@, value@) == item_with(items@.skip(i as int), key@, value@),
        decreases items@.len() - i,
    {
        assert(items@.skip(i as int).drop_first() =~= items@.skip(i + 1));
        let found = match items[i].get_text(key) {
            Some(text) => same_text(text.as_str(), value),
            None => false,
        };
        if found {
            return Some(&items[i]);
        }
        i = i + 1;
    }
    None
}

/// A member is the first one of its name, and only a record has any.
pub proof fn law_the_first_member_counts(members: Seq<(String, Json)>, key: Seq<char>)
    ensures
        match member_of(members, key) {
            Some(value) => exists|i: int|
                {
                    &&& 0 <= i < members.len()
                    &&& (#[trigger] members[i]).0@ == key
                    &&& members[i].1 == value
                    &&& forall|j: int| 0 <= j < i ==> (#[trigger] members[j]).0@ != key
                },
            None => forall|j: int| 0 <= j < members.len() ==> (#[trigger] members[j]).0@ != key,
        },
    decreases members.len(),
{
    if members.len() > 0 && members[0].0@ != key {
        let rest = members.drop_first();
        law_the_first_member_counts(rest, key);
        match member_of(rest, key) {
            Some(value) => {
                let i = choose|i: int|
                    {
                        &&& 0 <= i < rest.len()
                        &&& (#[trigger] rest[i]).0@ == key
                        &&& rest[i].1 == value
                        &&& forall|j: int| 0 <= j < i ==> (#[trigger] rest[j]).0@ != key
                    };
                assert(members[i + 1] == rest[i]);
                assert forall|j: int| 0 <= j < i + 1 implies (#[trigger] members[j]).0@ != key by {
                    if j > 0 {
                        assert(rest[j - 1] == members[j]);
                    }
                }
            },
            None => {
                assert forall|j: int| 0 <= j < members.len() implies (#[trigger] members[j]).0@
                    != key by {
                    if j > 0 {
                        assert(rest[j - 1] == members[j]);
                    }
                }
            },
        }
    } else if members.len() > 0 {
        assert(members[0].0@ == key);
    }
}

/// An item is found by a text that it holds under a key: the first one that does.
pub proof fn law_the_first_item_counts(items: Seq<Json>, key: Seq<char>, value: Seq<char>)
    ensures
        match item_with(items, key, value) {
            Some(item) => exists|i: int|
                {
                    &&& 0 <= i < items.len()
                    &&& (#[trigger] items[i]).text_at(key) == Some(value)
                    &&& items[i] == item
                    &&& forall|j: int|
                        0 <= j < i ==> (#[trigger] items[j]).text_at(key) != Some(value)
                },
            None => forall|j: int|
                0 <= j < items.len() ==> (#[trigger] items[j]).text_at(key) != Some(value),
        },
    decreases items.len(),
{
    if items.len() > 0 && items[0].text_at(key) != Some(value) {
        let rest = items.drop_first();
        law_the_first_item_counts(rest, key, value);
        match item_with(rest, key, value) {
            Some(item) => {
                let i = choose|i: int|
                    {
                        &&& 0 <= i < rest.len()
                        &&& (#[trigger] rest[i]).text_at(key) == Some(value)
                        &&& rest[i] == item
                        &&& forall|j: int|
                            0 <= j < i ==> (#[trigger] rest[j]).text_at(key) != Some(value)
                    };
                assert(items[i + 1] == rest[i]);
                assert forall|j: int| 0 <= j < i + 1 implies (#[trigger] items[j]).text_at(key)
                    != Some(value) by {
                    if j > 0 {
                        assert(rest[j - 1] == items[j]);
                    }
                }
            },
            None => {
                assert forall|j: int| 0 <= j < items.len() implies (#[trigger] items[j]).text_at(
                    key,
                ) != Some(value) by {
                    if j > 0 {
                        assert(rest[j - 1] == items[j]);
                    }
                }
            },
        }
    } else if items.len() > 0 {
        assert(items[0].text_at(key) == Some(value));
    }
}

/// What a value reads as: a text as itself and as the number it holds, a whole number that
/// is not negative as a count, any whole number that fits as an integer, a list as its
/// items. Nothing else reads as any of them.
pub proof fn law_what_a_value_reads_as<S: Number>(value: Json)
    ensures
        value.as_text() is Some <==> value is Text,
        value matches Json::Text(text) ==> value.as_text() == Some(text@) && value.as_number::<S>()
            == S::reading(text@),
        !(value is Text) ==> value.as_number::<S>() is None,
        value.as_count() is Some <==> value is Count,
        value matches Json::Count(n) ==> value.as_count() == Some(n) && (value.as_integer()
            is Some <==> n <= i64::MAX) && (value.as_integer() matches Some(i) ==> i == n),
        value matches Json::Negative(n) ==> value.as_integer() == Some(n),
        !(value is Count) && !(value is Negative) ==> value.as_integer() is None,
        value.as_list() is Some <==> value is List,
        value matches Json::List(items) ==> value.as_list() == Some(items@),
{
}

/// What a record holds under a key is read as that member is; where there is none, a text
/// is empty and a number nothing.
pub proof fn law_members_are_read_as_values<S: Number>(record: Json, key: Seq<char>)
    ensures
        !(record is Record) ==> record.member(key) is None,
        record matches Json::Record(members) ==> record.member(key) == member_of(members@, key),
        record.member(key) matches Some(value) ==> {
            &&& record.text_at(key) == value.as_text()
            &&& record.list_at(key) == value.as_list()
            &&& record.count_at(key) == value.as_count()
            &&& record.integer_at(key) == value.as_integer()
            &&& record.number_at::<S>(key) == value.as_number::<S>()
        },
        record.member(key) is None ==> record.text_at(key) is None && record.list_at(key) is None
            && record.count_at(key) is None && record.integer_at(key) is None && record.number_at::<
            S,
        >(key) is None,
        record.text_at(key) is None ==> record.text_or_empty(key).len() == 0,
        record.text_at(key) matches Some(text) ==> record.text_or_empty(key) == text,
        record.number_at::<S>(key) is None ==> record.number_or_zero::<S>(key) == S::of_ratio(0, 1),
        record.number_at::<S>(key) matches Some(n) ==> record.number_or_zero::<S>(key) == n,
{
}

} // verus!
