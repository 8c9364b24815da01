use vstd::prelude::*;

verus! {

/// A JSON number, held the way serde_json holds one: a non-negative integer,
/// a negative integer, or a floating-point number. A float is kept by its
/// IEEE-754 bit pattern, so that no float stands in the library; the library
/// never reads one, it only carries it through.
#[derive(Debug)]
pub enum JsonNumber {
    PosInt(u64),
    /// Always below zero.
    NegInt(i64),
    Float(u64),
}

/// A JSON document as the atuin server returns it. An object keeps its
/// members in the order in which they were read, each key once.
#[derive(Debug)]
pub enum Json {
    Null,
    Bool(bool),
    Number(JsonNumber),
    Str(String),
    Array(Vec<Json>),
    Object(Vec<(String, Json)>),
}

/// The value of the first member of `entries` whose key is `key`.
pub open spec fn lookup(entries: Seq<(String, Json)>, key: Seq<char>) -> Option<Json>
    decreases entries.len(),
{
    if entries.len() == 0 {
        None
    } else if entries[0].0@ == key {
        Some(entries[0].1)
    } else {
        lookup(entries.drop_first(), key)
    }
}

/// The member `key` of an object; nothing for any other value.
pub open spec fn spec_get(v: Json, key: Seq<char>) -> Option<Json> {
    match v {
        Json::Object(entries) => lookup(entries@, key),
        _ => None,
    }
}

/// The text of a string value.
pub open spec fn spec_as_str(v: Json) -> Option<Seq<char>> {
    match v {
        Json::Str(s) => Some(s@),
        _ => None,
    }
}

/// The value of an integer that fits in a `u64`.
pub open spec fn spec_as_u64(v: Json) -> Option<u64> {
    match v {
        Json::Number(JsonNumber::PosInt(n)) => Some(n),
        _ => None,
    }
}

/// The value of an integer that fits in an `i64`.
pub open spec fn spec_as_i64(v: Json) -> Option<i64> {
    match v {
        Json::Number(JsonNumber::PosInt(n)) => if n <= i64::MAX {
            Some(n as i64)
        } else {
            None
        },
        Json::Number(JsonNumber::NegInt(n)) => Some(n),
        _ => None,
    }
}

/// `key`'s entry is found at `i` when no earlier entry carries that key.
proof fn lemma_lookup_skip(entries: Seq<(String, Json)>, i: int, key: Seq<char>)
    requires
        0 <= i < entries.len(),
        entries[i].0@ != key,
    ensures
        lookup(entries.subrange(i, entries.len() as int), key) == lookup(
            entries.subrange(i + 1, entries.len() as int),
            key,
        ),
{
    assert(entries.subrange(i, entries.len() as int).drop_first() =~= entries.subrange(
        i + 1,
        entries.len() as int,
    ));
}

/// Finds the value stored under `key` in a list of object members.
pub fn lookup_entry<'a>(entries: &'a Vec<(String, Json)>, key: &str) -> (r: Option<&'a Json>)
    ensures
        r matches Some(v) ==> lookup(entries@, key@) == Some(*v),
        r is None ==> lookup(entries@, key@) is None,
{
    let n = entries.len();
    let mut i: usize = 0;
    assert(entries@.subrange(0, n as int) =~= entries@);
    while i < n
        invariant
            n == entries@.len(),
            i <= n,
            lookup(entries@, key@) == lookup(entries@.subrange(i as int, n as int), key@),
        decreases n - i,
    {
        if crate::text::str_eq(entries[i].0.as_str(), key) {
            return Some(&entries[i].1);
        }
        proof {
            lemma_lookup_skip(entries@, i as int, key@);
        }
        i = i + 1;
    }
    None
}

impl Json {
    /// The member `key` of an object (`None` for a value that is no object,
    /// or an object without that key).
    pub fn get(&self, key: &str) -> (r: Option<&Json>)
        ensures
            r matches Some(v) ==> spec_get(*self, key@) == Some(*v),
            r is None ==> spec_get(*self, key@) is None,
    {
        match self {
            Json::Object(entries) => lookup_entry(entries, key),
            _ => None,
        }
    }

    /// The text of a string value.
    pub fn as_str(&self) -> (r: Option<&str>)
        ensures
            r matches Some(s) ==> spec_as_str(*self) == Some(s@),
            r is None ==> spec_as_str(*self) is None,
    {
        match self {
            Json::Str(s) => Some(s.as_str()),
            _ => None,
        }
    }

    /// The value of an integer that fits in a `u64`.
    pub fn as_u64(&self) -> (r: Option<u64>)
        ensures
            r == spec_as_u64(*self),
    {
        match self {
            Json::Number(JsonNumber::PosInt(n)) => Some(*n),
            _ => None,
        }
    }

    /// The value of an integer that fits in an `i64`.
    pub fn as_i64(&self) -> (r: Option<i64>)
        ensures
            r == spec_as_i64(*self),
    {
        match self {
            Json::Number(JsonNumber::PosInt(n)) => if *n <= 9223372036854775807u64 {
                Some(*n as i64)
            } else {
                None
            },
            Json::Number(JsonNumber::NegInt(n)) => Some(*n),
            _ => None,
        }
    }

    /// The members of an object.
    pub fn as_object(&self) -> (r: Option<&Vec<(String, Json)>>)
        ensures
            r matches Some(m) ==> *self == Json::Object(*m),
            r is None ==> !(*self is Object),
    {
        match self {
            Json::Object(entries) => Some(entries),
            _ => None,
        }
    }
}

/// The value fetched, or JSON null when the fetch failed.
pub fn or_null<E>(fetched: Result<Json, E>) -> (r: Json)
    ensures
        r == match fetched {
            Ok(v) => v,
            Err(_) => Json::Null,
        },
{
    match fetched {
        Ok(v) => v,
        Err(_) => Json::Null,
    }
}

} // verus!
