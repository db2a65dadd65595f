//! A JSON document model and the lookups and edits the configuration logic makes on it.
//!
//! An object is a list of members; a lookup finds the first member with the key, and an
//! edit keeps every other key's first member as it was.
use vstd::prelude::*;

use crate::text::{concat, str_eq};

verus! {

/// A JSON number: a non-negative integer, a negative integer, or any other number by its text.
#[derive(Debug)]
pub enum JsonNumber {
    PosInt(u64),
    NegInt(i64),
    Float(String),
}

/// A JSON value.
#[derive(Debug)]
pub enum JsonValue {
    Null,
    Bool(bool),
    Number(JsonNumber),
    Str(String),
    Array(Vec<JsonValue>),
    Object(Vec<(String, JsonValue)>),
}

/// The value of the first member of `es` whose key is `key`.
pub open spec fn lookup(es: Seq<(String, JsonValue)>, key: Seq<char>) -> Option<JsonValue>
    decreases es.len(),
{
    if es.len() == 0 {
        None
    } else {
        let r = lookup(es.drop_last(), key);
        if r is Some {
            r
        } else if es.last().0@ == key {
            Some(es.last().1)
        } else {
            None
        }
    }
}

/// `es` without any member whose key is `key`.
pub open spec fn without_key(es: Seq<(String, JsonValue)>, key: Seq<char>) -> Seq<(String, JsonValue)>
    decreases es.len(),
{
    if es.len() == 0 {
        es
    } else if es.last().0@ == key {
        without_key(es.drop_last(), key)
    } else {
        without_key(es.drop_last(), key).push(es.last())
    }
}

/// The text of a string value.
pub open spec fn text_of(v: Option<JsonValue>) -> Option<Seq<char>> {
    match v {
        Some(JsonValue::Str(s)) => Some(s@),
        _ => None,
    }
}

impl JsonValue {
    /// The member `key` of an object; `None` for a missing key or a value that is no object.
    pub open spec fn field(self, key: Seq<char>) -> Option<JsonValue> {
        match self {
            JsonValue::Object(es) => lookup(es@, key),
            _ => None,
        }
    }

    /// The member `key`, or `Null` where there is none (what indexing a JSON value reads).
    pub open spec fn at(self, key: Seq<char>) -> JsonValue {
        match self.field(key) {
            Some(v) => v,
            None => JsonValue::Null,
        }
    }

    /// A value that a member can be assigned into: an object, or `Null`, which becomes one.
    pub open spec fn assignable(self) -> bool {
        self is Object || self is Null
    }

    /// `after` is `before` with member `key` set to `val` and every other member kept.
    pub open spec fn is_set_of(after: JsonValue, before: JsonValue, key: Seq<char>, val: JsonValue) -> bool {
        &&& after is Object
        &&& after.field(key) == Some(val)
        &&& forall|k: Seq<char>| k != key ==> #[trigger] after.field(k) == before.field(k)
    }

    /// `after` is the object `before` without member `key`, every other member kept.
    pub open spec fn is_removal_of(after: JsonValue, before: JsonValue, key: Seq<char>) -> bool {
        &&& after is Object
        &&& after.field(key) is None
        &&& forall|k: Seq<char>| k != key ==> #[trigger] after.field(k) == before.field(k)
    }

    /// Whether the value is an object.
    pub fn is_object(&self) -> (r: bool)
        ensures
            r == (*self is Object),
    {
        match self {
            JsonValue::Object(_) => true,
            _ => false,
        }
    }

    /// Whether a member can be assigned into the value: an object, or `null`.
    pub fn is_assignable(&self) -> (r: bool)
        ensures
            r == self.assignable(),
    {
        match self {
            JsonValue::Object(_) => true,
            JsonValue::Null => true,
            _ => false,
        }
    }

    /// The members of an object value.
    pub fn as_object(&self) -> (r: Option<&Vec<(String, JsonValue)>>)
        ensures
            match r {
                Some(es) => *self == JsonValue::Object(*es),
                None => !(*self is Object),
            },
    {
        match self {
            JsonValue::Object(es) => Some(es),
            _ => None,
        }
    }

    /// The text of a string value.
    pub fn as_str(&self) -> (r: Option<&str>)
        ensures
            match r {
                Some(s) => *self is Str && text_of(Some(*self)) == Some(s@),
                None => !(*self is Str),
            },
    {
        match self {
            JsonValue::Str(s) => Some(s.as_str()),
            _ => None,
        }
    }

    /// The member `key` of an object value.
    pub fn get(&self, key: &str) -> (r: Option<&JsonValue>)
        ensures
            match r {
                Some(v) => self.field(key@) == Some(*v),
                None => self.field(key@) is None,
            },
    {
        match self {
            JsonValue::Object(es) => match find_member(es, key) {
                Some(i) => Some(&es[i].1),
                None => None,
            },
            _ => None,
        }
    }

    /// The value with member `key` set to `val`; `Null` becomes an object first.
    pub fn with_field(self, key: String, val: JsonValue) -> (r: JsonValue)
        requires
            self.assignable(),
        ensures
            JsonValue::is_set_of(r, self, key@, val),
    {
        let ghost k0 = key@;
        let ghost v0 = val;
        let ghost before = self;
        match self {
            JsonValue::Object(mut es) => {
                object_insert(&mut es, key, val);
                let r = JsonValue::Object(es);
                proof {
                    assert forall|k: Seq<char>| k != k0 implies #[trigger] r.field(k) == before.field(k) by {
                        assert(lookup(es@, k) == lookup(before->Object_0@, k));
                    }
                    assert(JsonValue::is_set_of(r, before, k0, v0));
                }
                r
            },
            _ => {
                let mut es: Vec<(String, JsonValue)> = Vec::new();
                es.push((key, val));
                proof {
                    assert(es@.drop_last() == Seq::<(String, JsonValue)>::empty());
                    assert(es@.last().0@ == k0);
                    assert(es@.last().1 == v0);
                    assert(lookup(es@.drop_last(), k0) is None);
                    assert(lookup(es@, k0) == Some(v0));
                    assert forall|k: Seq<char>| k != k0 implies #[trigger] lookup(es@, k) is None by {
                        assert(lookup(es@.drop_last(), k) is None);
                    }
                }
                let r = JsonValue::Object(es);
                assert(JsonValue::is_set_of(r, before, k0, v0));
                r
            },
        }
    }

    /// The value without member `key`, and the member's value; a value that is no object
    /// comes back as it is.
    pub fn without_field(self, key: &str) -> (r: (JsonValue, Option<JsonValue>))
        ensures
            r.1 == self.field(key@),
            (self is Object) ==> JsonValue::is_removal_of(r.0, self, key@),
            (self is Object) ==> (r.0->Object_0@.len() == 0 <==> forall|k: Seq<char>|
                k != key@ ==> #[trigger] self.field(k) is None),
            !(self is Object) ==> r.0 == self,
    {
        let ghost before = self;
        match self {
            JsonValue::Object(mut es) => {
                let ghost orig = es@;
                let found = object_remove(&mut es, key);
                let r = JsonValue::Object(es);
                proof {
                    assert forall|k: Seq<char>| k != key@ implies #[trigger] r.field(k) == before.field(k) by {
                        assert(lookup(es@, k) == lookup(before->Object_0@, k));
                    }
                    lemma_without_key_empty(orig, key@);
                    assert(es@ == without_key(orig, key@));
                    assert(forall|k: Seq<char>| #[trigger] before.field(k) == lookup(orig, k));
                    if es@.len() == 0 {
                        assert forall|k: Seq<char>| k != key@ implies #[trigger] before.field(k) is None by {
                            assert(lookup(orig, k) is None);
                        }
                    }
                    if forall|k: Seq<char>| k != key@ ==> #[trigger] before.field(k) is None {
                        assert forall|k: Seq<char>| k != key@ implies #[trigger] lookup(orig, k) is None by {
                            assert(before.field(k) is None);
                        }
                        assert(es@.len() == 0);
                    }
                }
                (r, found)
            },
            other => (other, None),
        }
    }

    /// Splits member `key` off the value: the rest, and the member's value or `Null` where
    /// there is none (what indexing reads).
    pub fn take_field(self, key: &str) -> (r: (JsonValue, JsonValue))
        ensures
            r.1 == self.at(key@),
            (self is Object) ==> JsonValue::is_removal_of(r.0, self, key@),
            (self is Object) ==> (r.0->Object_0@.len() == 0 <==> forall|k: Seq<char>|
                k != key@ ==> #[trigger] self.field(k) is None),
            !(self is Object) ==> r.0 == self,
    {
        let (rest, found) = self.without_field(key);
        match found {
            Some(v) => (rest, v),
            None => (rest, JsonValue::Null),
        }
    }
}

proof fn lemma_lookup_push(es: Seq<(String, JsonValue)>, e: (String, JsonValue), k: Seq<char>)
    ensures
        lookup(es.push(e), k) == (if lookup(es, k) is Some {
            lookup(es, k)
        } else if e.0@ == k {
            Some(e.1)
        } else {
            None
        }),
{
    assert(es.push(e).drop_last() == es);
}

proof fn lemma_lookup_prefix(es: Seq<(String, JsonValue)>, n: int, k: Seq<char>)
    requires
        0 <= n <= es.len(),
        lookup(es.take(n), k) is Some,
    ensures
        lookup(es, k) == lookup(es.take(n), k),
    decreases es.len() - n,
{
    if n < es.len() {
        lemma_lookup_push(es.take(n), es[n], k);
        assert(es.take(n + 1) == es.take(n).push(es[n]));
        lemma_lookup_prefix(es, n + 1, k);
    } else {
        assert(es.take(n) == es);
    }
}

proof fn lemma_lookup_absent(es: Seq<(String, JsonValue)>, k: Seq<char>)
    requires
        forall|j: int| 0 <= j < es.len() ==> (#[trigger] es[j]).0@ != k,
    ensures
        lookup(es, k) is None,
    decreases es.len(),
{
    if es.len() > 0 {
        lemma_lookup_absent(es.drop_last(), k);
    }
}

proof fn lemma_without_key(es: Seq<(String, JsonValue)>, key: Seq<char>, k: Seq<char>)
    ensures
        lookup(without_key(es, key), k) == (if k == key {
            None
        } else {
            lookup(es, k)
        }),
    decreases es.len(),
{
    if es.len() > 0 {
        lemma_without_key(es.drop_last(), key, k);
        if es.last().0@ != key {
            lemma_lookup_push(without_key(es.drop_last(), key), es.last(), k);
        }
    }
}

proof fn lemma_without_key_other(es: Seq<(String, JsonValue)>, key: Seq<char>, j: int)
    requires
        0 <= j < without_key(es, key).len(),
    ensures
        without_key(es, key)[j].0@ != key,
    decreases es.len(),
{
    if es.len() > 0 {
        let w = without_key(es.drop_last(), key);
        if es.last().0@ == key {
            lemma_without_key_other(es.drop_last(), key, j);
        } else if j < w.len() {
            lemma_without_key_other(es.drop_last(), key, j);
        }
    }
}

/// `es` keeps a member besides `key` exactly when some other key finds a value in it.
proof fn lemma_without_key_empty(es: Seq<(String, JsonValue)>, key: Seq<char>)
    ensures
        without_key(es, key).len() == 0 <==> forall|k: Seq<char>| k != key ==> #[trigger] lookup(es, k) is None,
{
    let w = without_key(es, key);
    if w.len() > 0 {
        let k = w.last().0@;
        lemma_without_key_other(es, key, w.len() - 1);
        lemma_without_key(es, key, k);
        assert(lookup(w, k) is Some);
    } else {
        assert forall|k: Seq<char>| k != key implies #[trigger] lookup(es, k) is None by {
            lemma_without_key(es, key, k);
        }
    }
}

/// Index of the first member of `es` whose key is `key`.
pub fn find_member(es: &Vec<(String, JsonValue)>, key: &str) -> (r: Option<usize>)
    ensures
        match r {
            Some(i) => i < es.len() && es@[i as int].0@ == key@ && lookup(es@, key@) == Some(es@[i as int].1),
            None => lookup(es@, key@) is None,
        },
{
    let mut i: usize = 0;
    while i < es.len()
        invariant
            i <= es.len(),
            forall|j: int| 0 <= j < i ==> (#[trigger] es@[j]).0@ != key@,
        decreases es.len() - i,
    {
        if str_eq(es[i].0.as_str(), key) {
            proof {
                lemma_lookup_absent(es@.take(i as int), key@);
                lemma_lookup_push(es@.take(i as int), es@[i as int], key@);
                assert(es@.take(i + 1) == es@.take(i as int).push(es@[i as int]));
                lemma_lookup_prefix(es@, i + 1, key@);
            }
            return Some(i);
        }
        i = i + 1;
    }
    proof {
        lemma_lookup_absent(es@, key@);
    }
    None
}

/// Removes every member with key `key`; gives back the value that a lookup found before.
pub fn object_remove(es: &mut Vec<(String, JsonValue)>, key: &str) -> (r: Option<JsonValue>)
    ensures
        r == lookup(old(es)@, key@),
        final(es)@ == without_key(old(es)@, key@),
        forall|k: Seq<char>| #[trigger] lookup(final(es)@, k) == (if k == key@ {
            None
        } else {
            lookup(old(es)@, k)
        }),
{
    let ghost orig = es@;
    let ghost mut n: int = 0;
    let mut kept: Vec<(String, JsonValue)> = Vec::new();
    let mut found: Option<JsonValue> = None;
    while es.len() > 0
        invariant
            0 <= n <= orig.len(),
            es@ == orig.subrange(n, orig.len() as int),
            kept@ == without_key(orig.take(n), key@),
            found == lookup(orig.take(n), key@),
        decreases es.len(),
    {
        let e = es.remove(0);
        proof {
            assert(e == orig[n]);
            assert(orig.take(n + 1) == orig.take(n).push(orig[n]));
            assert(orig.take(n + 1).drop_last() == orig.take(n));
            lemma_lookup_push(orig.take(n), orig[n], key@);
        }
        if str_eq(e.0.as_str(), key) {
            if found.is_none() {
                found = Some(e.1);
            }
        } else {
            kept.push(e);
        }
        proof {
            n = n + 1;
            assert(es@ == orig.subrange(n, orig.len() as int));
        }
    }
    proof {
        assert(orig.take(n) == orig);
        assert forall|k: Seq<char>| #[trigger] lookup(kept@, k) == (if k == key@ {
            None
        } else {
            lookup(orig, k)
        }) by {
            lemma_without_key(orig, key@, k);
        }
    }
    *es = kept;
    found
}

/// Sets the member `key` to `val`, removing any other member with that key.
pub fn object_insert(es: &mut Vec<(String, JsonValue)>, key: String, val: JsonValue)
    ensures
        forall|k: Seq<char>| #[trigger] lookup(final(es)@, k) == (if k == key@ {
            Some(val)
        } else {
            lookup(old(es)@, k)
        }),
{
    let ghost before = es@;
    let ghost k0 = key@;
    let _ = object_remove(es, key.as_str());
    let ghost mid = es@;
    es.push((key, val));
    proof {
        assert forall|k: Seq<char>| #[trigger] lookup(es@, k) == (if k == k0 {
            Some(val)
        } else {
            lookup(before, k)
        }) by {
            lemma_lookup_push(mid, (key, val), k);
        }
    }
}


/// The keys of the members, in order.
pub open spec fn keys_of(es: Seq<(String, JsonValue)>) -> Seq<Seq<char>> {
    es.map_values(|e: (String, JsonValue)| e.0@)
}

/// A lookup finds a member exactly when some member has the key.
pub proof fn lemma_lookup_some_iff(es: Seq<(String, JsonValue)>, k: Seq<char>)
    ensures
        lookup(es, k) is Some <==> keys_of(es).contains(k),
    decreases es.len(),
{
    if es.len() > 0 {
        lemma_lookup_some_iff(es.drop_last(), k);
        let ks = keys_of(es);
        let kd = keys_of(es.drop_last());
        assert(kd =~= ks.drop_last());
        if kd.contains(k) {
            let i = choose|i: int| 0 <= i < kd.len() && kd[i] == k;
            assert(ks[i] == k);
        }
        if ks.contains(k) && !kd.contains(k) {
            let i = choose|i: int| 0 <= i < ks.len() && ks[i] == k;
            if i < ks.len() - 1 {
                assert(kd[i] == k);
            }
        }
        assert(ks[ks.len() - 1] == es.last().0@);
    }
}

/// The keys of the members, in order.
pub fn member_keys(es: &Vec<(String, JsonValue)>) -> (r: Vec<String>)
    ensures
        r.deep_view() == keys_of(es@),
{
    let mut r: Vec<String> = Vec::new();
    let mut i: usize = 0;
    while i < es.len()
        invariant
            i <= es.len(),
            r.len() == i,
            r.deep_view() == keys_of(es@.take(i as int)),
        decreases es.len() - i,
    {
        let ghost before = r.deep_view();
        let k = es[i].0.clone();
        assert(k@ == es@[i as int].0@);
        r.push(k);
        proof {
            assert(r.deep_view() =~= before.push(es@[i as int].0@));
            let want = keys_of(es@.take(i + 1));
            assert(want.len() == i + 1);
            assert forall|j: int| 0 <= j < i + 1 implies #[trigger] r.deep_view()[j] == want[j] by {
                if j < i {
                    assert(r.deep_view()[j] == before[j]);
                    assert(before[j] == keys_of(es@.take(i as int))[j]);
                }
            }
            assert(r.deep_view() =~= want);
        }
        i = i + 1;
    }
    assert(es@.take(es.len() as int) == es@);
    r
}


/// A `serde_json` value; nothing inside it is read here.
#[verifier::external_type_specification]
#[verifier::external_body]
pub struct ExSerdeValue(serde_json::Value);

/// The value that `serde_json::from_str` reads from a text, where the text is JSON.
pub uninterp spec fn serde_json_value(text: Seq<char>) -> Option<JsonValue>;

/// What `json5::from_str` reads from a text: the value, or the text of its error.
pub uninterp spec fn json5_value(text: Seq<char>) -> Result<JsonValue, Seq<char>>;

/// A `serde_json` value as a [`JsonValue`], member for member.
#[verifier::external_body]
fn json_of_serde(v: serde_json::Value) -> JsonValue {
    match v {
        serde_json::Value::Null => JsonValue::Null,
        serde_json::Value::Bool(b) => JsonValue::Bool(b),
        serde_json::Value::Number(n) => JsonValue::Number(match (n.as_u64(), n.as_i64()) {
            (Some(u), _) => JsonNumber::PosInt(u),
            (None, Some(i)) => JsonNumber::NegInt(i),
            (None, None) => JsonNumber::Float(n.to_string()),
        }),
        serde_json::Value::String(s) => JsonValue::Str(s),
        serde_json::Value::Array(items) => JsonValue::Array(items.into_iter().map(json_of_serde).collect()),
        serde_json::Value::Object(map) => JsonValue::Object(map.into_iter().map(|(k, x)| (k, json_of_serde(x))).collect()),
    }
}

/// Reads a text as JSON with `serde_json::from_str`: the result is `serde_json_value` of the
/// text, a name for what the parser reads, which nothing here spells out; the parser's error
/// is dropped.
#[verifier::external_body]
fn serde_json_parse(content: &str) -> (r: Option<JsonValue>)
    ensures
        r == serde_json_value(content@),
{
    serde_json::from_str::<serde_json::Value>(content).ok().map(json_of_serde)
}

/// Reads a text as JSON5 with `json5::from_str`: the value, or the text of the parser's
/// error, as `json5_value` of the text names them; nothing here spells out what they are.
#[verifier::external_body]
fn json5_parse(content: &str) -> (r: Result<JsonValue, String>)
    ensures
        match r {
            Ok(v) => json5_value(content@) == Ok::<JsonValue, Seq<char>>(v),
            Err(e) => json5_value(content@) == Err::<JsonValue, Seq<char>>(e@),
        },
{
    json5::from_str::<serde_json::Value>(content).map(json_of_serde).map_err(|e| e.to_string())
}

/// A JSON text's value, where the text is JSON.
pub fn parse_json(content: &str) -> (r: Option<JsonValue>)
    ensures
        r == serde_json_value(content@),
{
    serde_json_parse(content)
}

/// What a text holds read as JSON, or else as JSON with comments (JSON5); the JSON5
/// error, after `context` and `": "`, where it is neither.
pub open spec fn json_or_jsonc_spec(text: Seq<char>, context: Seq<char>) -> Result<JsonValue, Seq<char>> {
    match serde_json_value(text) {
        Some(v) => Ok(v),
        None => match json5_value(text) {
            Ok(v) => Ok(v),
            Err(m) => Err(context + ": "@ + m),
        },
    }
}

/// Reads a text as JSON, or else as JSON with comments; the error names `error_context`.
pub fn parse_json_or_jsonc(content: &str, error_context: &str) -> (r: Result<JsonValue, String>)
    ensures
        match r {
            Ok(v) => json_or_jsonc_spec(content@, error_context@) == Ok::<JsonValue, Seq<char>>(v),
            Err(e) => json_or_jsonc_spec(content@, error_context@) == Err::<JsonValue, Seq<char>>(e@),
        },
{
    match serde_json_parse(content) {
        Some(v) => Ok(v),
        None => match json5_parse(content) {
            Ok(v) => Ok(v),
            Err(m) => {
                let head = concat(error_context, ": ");
                Err(concat(head.as_str(), m.as_str()))
            },
        },
    }
}

/// Reads a text as JSON, or else as JSON with comments; `None` where it is neither.
pub fn parse_json_or_json5(content: &str) -> (r: Option<JsonValue>)
    ensures
        r == (match json_or_jsonc_spec(content@, Seq::empty()) {
            Ok(v) => Some(v),
            Err(_) => None,
        }),
{
    match parse_json_or_jsonc(content, "") {
        Ok(v) => Some(v),
        Err(_) => None,
    }
}

} // verus!
