//! The values of a template's context.
//!
//! A context is a tree of values in the shape of a JSON document. A
//! number is held by its text. A variable name is a path of member names
//! separated by dots.

use crate::text::{chars_of, same, split, split_on, trim, trimmed, views};
use vstd::prelude::*;

verus! {

/// A value of a context.
#[derive(Debug)]
pub enum Value {
    Null,
    Bool(bool),
    /// A number, by its text.
    Number(String),
    Text(String),
    Array(Vec<Value>),
    Object(Vec<Member>),
}

/// A named member of an object.
#[derive(Debug)]
pub struct Member {
    pub key: String,
    pub value: Value,
}

/// The index of the first of `members` whose key is `key`.
pub open spec fn member_index(members: Seq<Member>, key: Seq<char>) -> Option<int>
    decreases members.len(),
{
    if members.len() == 0 {
        None
    } else {
        match member_index(members.drop_last(), key) {
            Some(i) => Some(i),
            None => if members.last().key@ == key {
                Some(members.len() - 1)
            } else {
                None
            },
        }
    }
}

/// `member_index` returns the least index of a member with the key.
pub proof fn lemma_member_index(members: Seq<Member>, key: Seq<char>)
    ensures
        match member_index(members, key) {
            Some(i) => 0 <= i < members.len() && members[i].key@ == key && forall|j: int|
                0 <= j < i ==> members[j].key@ != key,
            None => forall|j: int| 0 <= j < members.len() ==> members[j].key@ != key,
        },
    decreases members.len(),
{
    if members.len() > 0 {
        let t = members.drop_last();
        lemma_member_index(t, key);
        assert forall|j: int| 0 <= j < t.len() implies t[j] == members[j] by {}
    }
}

/// The text of a value: that of a text or a number, `true` or `false` for
/// a boolean, and nothing for anything else.
pub open spec fn text_of(v: Value) -> Seq<char> {
    match v {
        Value::Text(s) => s@,
        Value::Number(n) => n@,
        Value::Bool(b) => if b {
            "true"@
        } else {
            "false"@
        },
        _ => Seq::empty(),
    }
}

/// The text found by following the member names `names[from..]` from the
/// value `v`: empty if a name is missing or a value on the way is no
/// object.
pub open spec fn follow(v: Value, names: Seq<Seq<char>>, from: int) -> Seq<char>
    decreases names.len() - from,
{
    if from < 0 || from >= names.len() {
        text_of(v)
    } else {
        match v {
            Value::Object(members) => match member_index(members@, names[from]) {
                Some(i) => follow(members@[i].value, names, from + 1),
                None => Seq::empty(),
            },
            _ => Seq::empty(),
        }
    }
}

/// The text of the variable `name` in the context `context`.
pub open spec fn variable_text(context: Value, name: Seq<char>) -> Seq<char> {
    follow(context, split(trim(name), "."@), 0)
}

fn find_member<'a>(members: &'a Vec<Member>, key: &[char]) -> (r: Option<&'a Value>)
    ensures
        match r {
            Some(v) => member_index(members@, key@) matches Some(i) && *v == members@[i].value,
            None => member_index(members@, key@) is None,
        },
{
    let mut i: usize = 0;
    while i < members.len()
        invariant
            i <= members.len(),
            forall|j: int| 0 <= j < i ==> members@[j].key@ != key@,
        decreases members.len() - i,
    {
        let k = chars_of(members[i].key.as_str());
        if same(k.as_slice(), key) {
            proof {
                lemma_member_index(members@, key@);
            }
            return Some(&members[i].value);
        }
        i += 1;
    }
    proof {
        lemma_member_index(members@, key@);
    }
    None
}

fn text_of_value(v: &Value) -> (r: Vec<char>)
    ensures
        r@ == text_of(*v),
{
    match v {
        Value::Text(s) => chars_of(s.as_str()),
        Value::Number(n) => chars_of(n.as_str()),
        Value::Bool(b) => if *b {
            chars_of("true")
        } else {
            chars_of("false")
        },
        _ => Vec::new(),
    }
}

impl Value {
    /// The text of the variable `name` in this context.
    pub fn get_variable_value(&self, name: &[char]) -> (r: Vec<char>)
        ensures
            r@ == variable_text(*self, name@),
    {
        let n = trimmed(name);
        let dot = chars_of(".");
        let names = split_on(n.as_slice(), dot.as_slice());
        let mut current: &Value = self;
        let mut i: usize = 0;
        while i < names.len()
            invariant
                i <= names.len(),
                variable_text(*self, name@) == follow(*current, views(names@), i as int),
            decreases names.len() - i,
        {
            assert(views(names@)[i as int] == names@[i as int]@);
            match current {
                Value::Object(members) => {
                    match find_member(members, names[i].as_slice()) {
                        Some(v) => {
                            current = v;
                        },
                        None => {
                            return Vec::new();
                        },
                    }
                },
                _ => {
                    return Vec::new();
                },
            }
            i += 1;
        }
        text_of_value(current)
    }
}

} // verus!
