//! A parsed JSON document, as far as the replies of the service are read.

use vstd::prelude::*;

verus! {

/// A JSON number.
pub enum JsonNumber {
    /// A whole number that is not negative.
    Unsigned(u64),
    /// A negative whole number.
    Negative(i64),
    /// Any other number.
    Fraction,
}

/// A JSON value.
pub enum Json {
    Null,
    Flag(bool),
    Number(JsonNumber),
    Text(String),
    List(Vec<Json>),
    /// The members of an object, each with its name. Where a name stands
    /// twice, the first member counts.
    Object(Vec<(String, Json)>),
}

/// The member named `key` among `members[i..]`: the first with that name, or
/// null where there is none.
pub open spec fn find_member(members: Seq<(String, Json)>, key: Seq<char>, i: int) -> Json
    decreases members.len() - i,
{
    if i < 0 || i >= members.len() {
        Json::Null
    } else if members[i].0@ == key {
        members[i].1
    } else {
        find_member(members, key, i + 1)
    }
}

/// The member of `j` named `key`: null where `j` is no object or has no such
/// member.
pub open spec fn member_of(j: Json, key: Seq<char>) -> Json {
    match j {
        Json::Object(members) => find_member(members@, key, 0),
        _ => Json::Null,
    }
}

/// The value behind an optional reference: null where there is none.
pub open spec fn value_of(j: Option<&Json>) -> Json {
    match j {
        Some(v) => *v,
        None => Json::Null,
    }
}

/// The text of a JSON string.
pub open spec fn text_value(j: Json) -> Option<Seq<char>> {
    match j {
        Json::Text(s) => Some(s@),
        _ => None,
    }
}

/// The value of a whole number that is not negative.
pub open spec fn u64_value(j: Json) -> Option<u64> {
    match j {
        Json::Number(JsonNumber::Unsigned(n)) => Some(n),
        _ => None,
    }
}

/// The value of a whole number that fits in 64 bits with a sign.
pub open spec fn i64_value(j: Json) -> Option<i64> {
    match j {
        Json::Number(JsonNumber::Unsigned(n)) => if n <= i64::MAX {
            Some(n as i64)
        } else {
            None
        },
        Json::Number(JsonNumber::Negative(n)) => Some(n),
        _ => None,
    }
}

/// The value of a JSON boolean.
pub open spec fn flag_value(j: Json) -> Option<bool> {
    match j {
        Json::Flag(b) => Some(b),
        _ => None,
    }
}

/// The items of a JSON array.
pub open spec fn list_value(j: Json) -> Option<Seq<Json>> {
    match j {
        Json::List(items) => Some(items@),
        _ => None,
    }
}

/// The member named `key` of the value behind `j`.
pub fn child<'a>(j: Option<&'a Json>, key: &str) -> (r: Option<&'a Json>)
    ensures
        value_of(r) == member_of(value_of(j), key@),
{
    match j {
        Some(Json::Object(members)) => {
            let name = key.to_owned();
            let mut i: usize = 0;
            while i < members.len()
                invariant
                    i <= members.len(),
                    name@ == key@,
                    member_of(value_of(j), key@) == find_member(members@, key@, 0),
                    find_member(members@, key@, 0) == find_member(members@, key@, i as int),
                decreases members.len() - i,
            {
                if members[i].0 == name {
                    return Some(&members[i].1);
                }
                i = i + 1;
            }
            None
        },
        _ => None,
    }
}

/// The member named `key` of `j`, taken out of it.
pub fn take_child(j: Json, key: &str) -> (r: Json)
    ensures
        r == member_of(j, key@),
{
    match j {
        Json::Object(members) => {
            let mut members = members;
            let ghost all = members@;
            let name = key.to_owned();
            let mut i: usize = 0;
            while i < members.len()
                invariant
                    i <= members.len(),
                    name@ == key@,
                    members@ == all,
                    member_of(j, key@) == find_member(all, key@, 0),
                    find_member(all, key@, 0) == find_member(all, key@, i as int),
                decreases members.len() - i,
            {
                if members[i].0 == name {
                    let found = members.swap_remove(i);
                    return found.1;
                }
                i = i + 1;
            }
            Json::Null
        },
        _ => Json::Null,
    }
}

/// Whether the value behind `j` is null.
pub fn is_null(j: Option<&Json>) -> (r: bool)
    ensures
        r == (value_of(j) is Null),
{
    match j {
        Some(Json::Null) => true,
        Some(_) => false,
        None => true,
    }
}

/// The text of the value behind `j`, where it is a string.
pub fn as_text(j: Option<&Json>) -> (r: Option<String>)
    ensures
        match r {
            Some(s) => text_value(value_of(j)) == Some(s@),
            None => text_value(value_of(j)) is None,
        },
{
    match j {
        Some(Json::Text(s)) => Some(s.clone()),
        _ => None,
    }
}

/// The value behind `j`, where it is a whole number that is not negative.
pub fn as_u64(j: Option<&Json>) -> (r: Option<u64>)
    ensures
        r == u64_value(value_of(j)),
{
    match j {
        Some(Json::Number(JsonNumber::Unsigned(n))) => Some(*n),
        _ => None,
    }
}

/// The value behind `j`, where it is a whole number that fits in 64 bits with
/// a sign.
pub fn as_i64(j: Option<&Json>) -> (r: Option<i64>)
    ensures
        r == i64_value(value_of(j)),
{
    match j {
        Some(Json::Number(JsonNumber::Unsigned(n))) => {
            if *n <= 0x7fff_ffff_ffff_ffff {
                Some(*n as i64)
            } else {
                None
            }
        },
        Some(Json::Number(JsonNumber::Negative(n))) => Some(*n),
        _ => None,
    }
}

/// The value behind `j`, where it is a boolean.
pub fn as_flag(j: Option<&Json>) -> (r: Option<bool>)
    ensures
        r == flag_value(value_of(j)),
{
    match j {
        Some(Json::Flag(b)) => Some(*b),
        _ => None,
    }
}

/// The items of the value behind `j`, where it is an array.
pub fn as_list<'a>(j: Option<&'a Json>) -> (r: Option<&'a Vec<Json>>)
    ensures
        match r {
            Some(items) => list_value(value_of(j)) == Some(items@),
            None => list_value(value_of(j)) is None,
        },
{
    match j {
        Some(Json::List(items)) => Some(items),
        _ => None,
    }
}

} // verus!
