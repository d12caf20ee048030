//! A JSON document as the library reads it.
//!
//! Web API answers arrive as JSON; this type holds what the interpretation of
//! those answers reads, with the accessors that it uses.
use vstd::prelude::*;
use crate::text::{chars_of, same_chars};

verus! {

/// A JSON number.
pub enum JsonNumber {
    /// A non-negative integer.
    NonNegative(u64),
    /// A negative integer.
    Negative(i64),
    /// A number with a fractional part or an exponent; its value is never read.
    Fractional,
}

/// One member of a JSON object.
pub struct JsonMember {
    pub key: String,
    pub value: Json,
}

/// A JSON value.
pub enum Json {
    Null,
    Bool(bool),
    Number(JsonNumber),
    Str(String),
    Array(Vec<Json>),
    Object(Vec<JsonMember>),
}

/// The value of the first member of `members` named `key`.
pub open spec fn lookup(members: Seq<JsonMember>, key: Seq<char>) -> Option<Json>
    decreases members.len(),
{
    if members.len() == 0 {
        None
    } else if members[0].key@ == key {
        Some(members[0].value)
    } else {
        lookup(members.drop_first(), key)
    }
}

/// The value behind an optional reference.
pub open spec fn present(j: Option<&Json>) -> Option<Json> {
    match j {
        Some(v) => Some(*v),
        None => None,
    }
}

/// The member `key` of the value `j`, if `j` is present and an object holding it.
pub open spec fn at(j: Option<Json>, key: Seq<char>) -> Option<Json> {
    match j {
        Some(v) => v.member(key),
        None => None,
    }
}

/// The elements of `j`, if `j` is present and an array.
pub open spec fn items_at(j: Option<Json>) -> Option<Seq<Json>> {
    match j {
        Some(v) => v.array_value(),
        None => None,
    }
}

/// The text of `j`, if `j` is present and a string.
pub open spec fn text_at(j: Option<Json>) -> Option<Seq<char>> {
    match j {
        Some(v) => v.str_value(),
        None => None,
    }
}

/// The non-negative integer `j`, if `j` is present and one.
pub open spec fn u64_at(j: Option<Json>) -> Option<u64> {
    match j {
        Some(v) => v.u64_value(),
        None => None,
    }
}

/// The non-negative integers among `items`, in order; other elements are skipped.
pub open spec fn u64_items(items: Seq<Json>) -> Seq<u64>
    decreases items.len(),
{
    if items.len() == 0 {
        seq![]
    } else {
        let prev = u64_items(items.drop_last());
        match items.last().u64_value() {
            Some(n) => prev.push(n),
            None => prev,
        }
    }
}

impl Json {
    /// The member `key`, if this is an object that holds one (`Value::get`).
    pub open spec fn member(self, key: Seq<char>) -> Option<Json> {
        match self {
            Json::Object(members) => lookup(members@, key),
            _ => None,
        }
    }

    /// The value, if this is a non-negative integer (`Value::as_u64`).
    pub open spec fn u64_value(self) -> Option<u64> {
        match self {
            Json::Number(JsonNumber::NonNegative(n)) => Some(n),
            _ => None,
        }
    }

    /// The text, if this is a string (`Value::as_str`).
    pub open spec fn str_value(self) -> Option<Seq<char>> {
        match self {
            Json::Str(s) => Some(s@),
            _ => None,
        }
    }

    /// The elements, if this is an array (`Value::as_array`).
    pub open spec fn array_value(self) -> Option<Seq<Json>> {
        match self {
            Json::Array(items) => Some(items@),
            _ => None,
        }
    }

    /// The truth value, if this is a boolean (`Value::as_bool`).
    pub open spec fn bool_value(self) -> Option<bool> {
        match self {
            Json::Bool(b) => Some(b),
            _ => None,
        }
    }

    /// The member named `key`, if this is an object that holds one.
    pub fn get(&self, key: &str) -> (r: Option<&Json>)
        ensures
            match r {
                Some(v) => self.member(key@) == Some(*v),
                None => self.member(key@) is None,
            },
    {
        match self {
            Json::Object(members) => {
                let kc = chars_of(key);
                let n = members.len();
                let mut i: usize = 0;
                proof {
                    assert(members@.skip(0) =~= members@);
                }
                while i < n
                    invariant
                        n == members@.len(),
                        i <= n,
                        kc@ == key@,
                        self.member(key@) == lookup(members@, key@),
                        lookup(members@, key@) == lookup(members@.skip(i as int), key@),
                    decreases n - i,
                {
                    let mc = chars_of(members[i].key.as_str());
                    proof {
                        assert(members@.skip(i as int)[0] == members@[i as int]);
                    }
                    if same_chars(&mc, &kc) {
                        return Some(&members[i].value);
                    }
                    proof {
                        assert(members@.skip(i as int).drop_first() =~= members@.skip(i + 1));
                    }
                    i += 1;
                }
                None
            },
            _ => None,
        }
    }

    /// The value, if this is a non-negative integer.
    pub fn as_u64(&self) -> (r: Option<u64>)
        ensures
            r == self.u64_value(),
    {
        match self {
            Json::Number(JsonNumber::NonNegative(n)) => Some(*n),
            _ => None,
        }
    }

    /// The text, if this is a string.
    pub fn as_str(&self) -> (r: Option<&str>)
        ensures
            match r {
                Some(s) => self.str_value() == Some(s@),
                None => self.str_value() is None,
            },
    {
        match self {
            Json::Str(s) => Some(s.as_str()),
            _ => None,
        }
    }

    /// The elements, if this is an array.
    pub fn as_array(&self) -> (r: Option<&Vec<Json>>)
        ensures
            match r {
                Some(a) => self.array_value() == Some(a@),
                None => self.array_value() is None,
            },
    {
        match self {
            Json::Array(items) => Some(items),
            _ => None,
        }
    }

    /// The truth value, if this is a boolean.
    pub fn as_bool(&self) -> (r: Option<bool>)
        ensures
            r == self.bool_value(),
    {
        match self {
            Json::Bool(b) => Some(*b),
            _ => None,
        }
    }
}

/// The non-negative integers among `items`, in order.
pub fn u64_items_of(items: &Vec<Json>) -> (r: Vec<u64>)
    ensures
        r@ == u64_items(items@),
{
    let mut r: Vec<u64> = Vec::new();
    let n = items.len();
    for i in 0..n
        invariant
            n == items@.len(),
            r@ == u64_items(items@.take(i as int)),
    {
        proof {
            assert(items@.take(i + 1).drop_last() =~= items@.take(i as int));
        }
        if let Some(v) = items[i].as_u64() {
            r.push(v);
        }
    }
    proof {
        assert(items@.take(n as int) =~= items@);
    }
    r
}

/// The non-negative integers in the array that is member `key` of `j`,
/// or none when there is no such array.
pub fn u64_items_at(j: &Json, key: &str) -> (r: Vec<u64>)
    ensures
        r@ == match items_at(j.member(key@)) {
            Some(items) => u64_items(items),
            None => seq![],
        },
{
    match j.get(key) {
        Some(v) => match v.as_array() {
            Some(items) => u64_items_of(items),
            None => Vec::new(),
        },
        None => Vec::new(),
    }
}

} // verus!

verus! {

/// Keeping the non-negative integers of a list keeps those of each part:
/// the integers of `x` followed by `y` are those of `x` followed by those of `y`.
pub proof fn law_u64_items_concat(x: Seq<Json>, y: Seq<Json>)
    ensures
        u64_items(x + y) == u64_items(x) + u64_items(y),
    decreases y.len(),
{
    if y.len() == 0 {
        assert(x + y =~= x);
        assert(u64_items(x) + Seq::<u64>::empty() =~= u64_items(x));
    } else {
        assert((x + y).drop_last() =~= x + y.drop_last());
        assert((x + y).last() == y.last());
        law_u64_items_concat(x, y.drop_last());
        if let Some(n) = y.last().u64_value() {
            assert((u64_items(x) + u64_items(y.drop_last())).push(n) =~= u64_items(x) + u64_items(
                y.drop_last(),
            ).push(n));
        }
    }
}

/// Appending an element to a list appends its value to the integers kept,
/// exactly when that element is a non-negative integer; however many came before.
pub proof fn law_u64_items_push(items: Seq<Json>, v: Json)
    ensures
        u64_items(items.push(v)) == match v.u64_value() {
            Some(n) => u64_items(items).push(n),
            None => u64_items(items),
        },
{
    assert(items.push(v).drop_last() =~= items);
    assert(items.push(v).last() == v);
}

/// Every non-negative integer of a list is kept, in order: the integers of a
/// list are as many as its elements that are integers, and the `j`-th is the
/// value of the `j`-th such element.
pub proof fn law_u64_items_all_kept(items: Seq<Json>)
    ensures
        u64_items(items).len() == items.filter(|v: Json| v.u64_value() is Some).len(),
        forall|j: int|
            0 <= j < u64_items(items).len() ==> Some(#[trigger] u64_items(items)[j]) == items.filter(
                |v: Json| v.u64_value() is Some,
            )[j].u64_value(),
    decreases items.len(),
{
    reveal_with_fuel(Seq::<_>::filter, 1);
    if items.len() > 0 {
        law_u64_items_all_kept(items.drop_last());
    }
}

/// The value of a member looked up by name is that of the first member of
/// that name: a member of that name stands at some place, and none before it
/// has the name. There is none exactly when no member has the name.
pub proof fn law_lookup_first(members: Seq<JsonMember>, key: Seq<char>)
    ensures
        match lookup(members, key) {
            Some(v) => exists|i: int|
                0 <= i < members.len() && #[trigger] members[i].key@ == key && members[i].value == v
                    && forall|j: int| 0 <= j < i ==> #[trigger] members[j].key@ != key,
            None => forall|i: int| 0 <= i < members.len() ==> #[trigger] members[i].key@ != key,
        },
    decreases members.len(),
{
    if members.len() > 0 {
        let rest = members.drop_first();
        law_lookup_first(rest, key);
        if members[0].key@ != key {
            match lookup(rest, key) {
                Some(v) => {
                    let i = choose|i: int|
                        0 <= i < rest.len() && #[trigger] rest[i].key@ == key && rest[i].value == v
                            && forall|j: int| 0 <= j < i ==> #[trigger] rest[j].key@ != key;
                    assert(members[i + 1] == rest[i]);
                    assert forall|j: int| 0 <= j < i + 1 implies #[trigger] members[j].key@ != key by {
                        if j > 0 {
                            assert(members[j] == rest[j - 1]);
                        }
                    }
                },
                None => {
                    assert forall|i: int| 0 <= i < members.len() implies #[trigger] members[i].key@ != key by {
                        if i > 0 {
                            assert(members[i] == rest[i - 1]);
                        }
                    }
                },
            }
        }
    }
}

} // verus!
