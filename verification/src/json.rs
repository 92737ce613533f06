//! JSON documents, read and written by `serde_json`.
//!
//! A `serde_json::Value` is opaque here. What the crate reads of one is named below: the members
//! of an object, the text of a string and the value of a whole number.
use serde_json::Value;
use vstd::prelude::*;
use vstd::utf8::encode_utf8;

verus! {

/// `serde_json::Value`, a JSON document.
#[verifier::external_type_specification]
#[verifier::external_body]
pub struct ExValue(serde_json::Value);

/// The members of a document that is an object.
pub uninterp spec fn members(v: Value) -> Option<Map<Seq<char>, Value>>;

/// The text of a document that is a string.
pub uninterp spec fn text_in(v: Value) -> Option<Seq<char>>;

/// The value of a document that is a whole number from `i64::MIN` to `u64::MAX`.
pub uninterp spec fn number_in(v: Value) -> Option<int>;

/// The value of a document that is `true` or `false`.
pub uninterp spec fn flag_in(v: Value) -> Option<bool>;

/// The items of a document that is an array.
pub uninterp spec fn items(v: Value) -> Option<Seq<Value>>;

/// The document that `serde_json::from_slice` reads in a byte string, if it is JSON.
pub uninterp spec fn document(bytes: Seq<u8>) -> Option<Value>;

/// What `serde_json::to_vec_pretty` writes for a document.
pub uninterp spec fn pretty(v: Value) -> Seq<u8>;

/// What `Value::to_string` writes for a document, on one line.
pub uninterp spec fn compact(v: Value) -> Seq<char>;

/// What `serde_json::to_string` writes for a text: a JSON string, quoted and escaped.
pub uninterp spec fn quoted(s: Seq<char>) -> Seq<char>;

/// The member `key` of a document, if it is an object that has one.
pub open spec fn member(v: Value, key: Seq<char>) -> Option<Value> {
    match members(v) {
        Some(m) => if m.dom().contains(key) {
            Some(m[key])
        } else {
            None
        },
        None => None,
    }
}

/// The text of the member `key` of a document.
pub open spec fn member_text(v: Value, key: Seq<char>) -> Option<Seq<char>> {
    match member(v, key) {
        Some(w) => text_in(w),
        None => None,
    }
}

/// The value of a document that is a whole number from 0 to `u64::MAX`.
pub open spec fn natural_in(v: Value) -> Option<u64> {
    match number_in(v) {
        Some(n) => if 0 <= n <= u64::MAX {
            Some(n as u64)
        } else {
            None
        },
        None => None,
    }
}

/// The number in the member `key` of a document, from 0 on.
pub open spec fn member_number(v: Value, key: Seq<char>) -> Option<u64> {
    match member(v, key) {
        Some(w) => natural_in(w),
        None => None,
    }
}

/// Whether `v` and `w` look the same down to the level `n`: they have the same text, whole number or
/// flag, or the same members or items, which look the same down to the level below.
pub open spec fn alike(v: Value, w: Value, n: nat) -> bool
    decreases n,
{
    &&& text_in(v) == text_in(w)
    &&& number_in(v) == number_in(w)
    &&& flag_in(v) == flag_in(w)
    &&& match (members(v), members(w)) {
        (Some(a), Some(b)) => a.dom() == b.dom() && (n > 0 ==> forall|k: Seq<char>|
            #![trigger a[k]]
            #![trigger b[k]]
            a.dom().contains(k) ==> alike(a[k], b[k], (n - 1) as nat)),
        (None, None) => true,
        _ => false,
    }
    &&& match (items(v), items(w)) {
        (Some(a), Some(b)) => a.len() == b.len() && (n > 0 ==> forall|i: int|
            #![trigger a[i]]
            #![trigger b[i]]
            0 <= i < a.len() ==> alike(a[i], b[i], (n - 1) as nat)),
        (None, None) => true,
        _ => false,
    }
}

/// Whether `v` and `w` look the same at every level. Numbers with a fraction are not looked at.
pub open spec fn reads_alike(v: Value, w: Value) -> bool {
    forall|n: nat| #[trigger] alike(v, w, n)
}

/// Whether the bytes hold a document that looks like `v`.
pub open spec fn holds(bytes: Seq<u8>, v: Value) -> bool {
    document(bytes) matches Some(w) && reads_alike(v, w)
}

/// How deep a document may be nested that is read.
pub const DEEPEST: u8 = 127;

/// Whether objects and arrays are nested at most `n` deep in the document.
pub open spec fn nests_within(v: Value, n: nat) -> bool
    decreases n,
{
    &&& members(v) matches Some(m) ==> n > 0 && forall|k: Seq<char>| #[trigger]
        m.dom().contains(k) ==> nests_within(m[k], (n - 1) as nat)
    &&& items(v) matches Some(s) ==> n > 0 && forall|i: int|
        0 <= i < s.len() ==> nests_within(#[trigger] s[i], (n - 1) as nat)
}

/// Whether the document is the text `t`.
pub open spec fn is_text(v: Value, t: Seq<char>) -> bool {
    &&& text_in(v) == Some(t)
    &&& number_in(v) is None
    &&& flag_in(v) is None
    &&& members(v) is None
    &&& items(v) is None
}

/// Whether the document is the whole number `n`.
pub open spec fn is_number(v: Value, n: u64) -> bool {
    &&& number_in(v) == Some(n as int)
    &&& text_in(v) is None
    &&& flag_in(v) is None
    &&& members(v) is None
    &&& items(v) is None
}

/// `serde_json::from_slice::<Value>`: the document in `bytes`, or nothing where they are no JSON.
/// It is a function of the bytes alone; which bytes are JSON is left to the reader. It refuses what
/// is nested deeper than [`DEEPEST`].
#[verifier::external_body]
pub(crate) fn read(bytes: &[u8]) -> (r: Option<Value>)
    ensures
        r == document(bytes@),
        r matches Some(v) ==> nests_within(v, DEEPEST as nat),
{
    serde_json::from_slice(bytes).ok()
}

/// `Value::is_object`: whether the document has members.
#[verifier::external_body]
pub(crate) fn is_object(v: &Value) -> (r: bool)
    ensures
        r == (members(*v) is Some),
{
    v.is_object()
}

/// `Value::get` with a text: the member of that name, if the document is an object that has one.
#[verifier::external_body]
pub(crate) fn get<'a>(v: &'a Value, key: &str) -> (r: Option<&'a Value>)
    ensures
        match member(*v, key@) {
            Some(w) => r == Some(&w),
            None => r is None,
        },
{
    v.get(key)
}

/// `Value::as_str`: the text of a document that is a string.
#[verifier::external_body]
pub(crate) fn as_text(v: &Value) -> (r: Option<&str>)
    ensures
        match text_in(*v) {
            Some(t) => r matches Some(s) && s@ == t,
            None => r is None,
        },
{
    v.as_str()
}

/// `Value::as_bool`: the value of a document that is `true` or `false`.
#[verifier::external_body]
pub(crate) fn as_flag(v: &Value) -> (r: Option<bool>)
    ensures
        r == flag_in(*v),
{
    v.as_bool()
}

/// `Value::as_array`: the items of a document that is an array.
#[verifier::external_body]
pub(crate) fn as_items(v: &Value) -> (r: Option<&Vec<Value>>)
    ensures
        match items(*v) {
            Some(s) => r matches Some(a) && a@ == s,
            None => r is None,
        },
{
    v.as_array()
}

/// `Value::as_u64`: the value of a document that is a whole number from 0 on and fits.
#[verifier::external_body]
pub(crate) fn as_number(v: &Value) -> (r: Option<u64>)
    ensures
        match r {
            Some(n) => number_in(*v) == Some(n as int),
            None => !(number_in(*v) matches Some(n) && n >= 0),
        },
{
    v.as_u64()
}

/// `serde_json::Map::new` as a document: an object without members.
#[verifier::external_body]
pub(crate) fn empty_object() -> (r: Value)
    ensures
        members(r) == Some(Map::<Seq<char>, Value>::empty()),
        items(r) is None,
{
    Value::Object(serde_json::Map::new())
}

/// Assignment to `Value`'s `IndexMut` with a text: the object gets the member `key`, which is the
/// text `text`, in place of one it had under that name; its other members stay as they are.
#[verifier::external_body]
fn set_text(v: &mut Value, key: &str, text: &str)
    requires
        members(*old(v)) is Some,
    ensures
        members(*final(v)) == Some(
            members(*old(v))->0.insert(key@, member(*final(v), key@)->0),
        ),
        is_text(member(*final(v), key@)->0, text@),
        items(*final(v)) is None,
{
    v[key] = Value::from(text);
}

/// Assignment to `Value`'s `IndexMut` with a number: the object gets the member `key`, which is the
/// number `n`, in place of one it had under that name; its other members stay as they are.
#[verifier::external_body]
fn set_number(v: &mut Value, key: &str, n: u64)
    requires
        members(*old(v)) is Some,
    ensures
        members(*final(v)) == Some(
            members(*old(v))->0.insert(key@, member(*final(v), key@)->0),
        ),
        is_number(member(*final(v), key@)->0, n),
        items(*final(v)) is None,
{
    v[key] = Value::from(n);
}

/// An object that gets a member without members or items of its own is not nested deeper.
proof fn lemma_put_keeps_nesting(v: Value, w: Value, key: Seq<char>, n: nat)
    requires
        nests_within(v, n),
        members(v) is Some,
        members(w) == Some(members(v)->0.insert(key, member(w, key)->0)),
        items(w) is None,
        members(member(w, key)->0) is None,
        items(member(w, key)->0) is None,
    ensures
        nests_within(w, n),
{
    let m = members(w)->0;
    assert forall|k: Seq<char>| #[trigger] m.dom().contains(k) implies nests_within(
        m[k],
        (n - 1) as nat,
    ) by {
        if k != key {
            assert(members(v)->0.dom().contains(k));
        }
    }
}

/// Gives the object the member `key` with the text `text`, in place of one it had under that name.
pub(crate) fn put_text(v: &mut Value, key: &str, text: &str)
    requires
        members(*old(v)) is Some,
    ensures
        members(*final(v)) == Some(
            members(*old(v))->0.insert(key@, member(*final(v), key@)->0),
        ),
        is_text(member(*final(v), key@)->0, text@),
        nests_within(*old(v), DEEPEST as nat) ==> nests_within(*final(v), DEEPEST as nat),
{
    let ghost before = *v;
    set_text(v, key, text);
    proof {
        if nests_within(before, DEEPEST as nat) {
            lemma_put_keeps_nesting(before, *v, key@, DEEPEST as nat);
        }
    }
}

/// Gives the object the member `key` with the number `n`, in place of one it had under that name.
pub(crate) fn put_number(v: &mut Value, key: &str, n: u64)
    requires
        members(*old(v)) is Some,
    ensures
        members(*final(v)) == Some(
            members(*old(v))->0.insert(key@, member(*final(v), key@)->0),
        ),
        is_number(member(*final(v), key@)->0, n),
        nests_within(*old(v), DEEPEST as nat) ==> nests_within(*final(v), DEEPEST as nat),
{
    let ghost before = *v;
    set_number(v, key, n);
    proof {
        if nests_within(before, DEEPEST as nat) {
            lemma_put_keeps_nesting(before, *v, key@, DEEPEST as nat);
        }
    }
}

/// `serde_json::to_vec_pretty`: the document written out, a function of the document alone, which
/// cannot fail for a `Value`. It is asked only for what is not nested deeper than a reader goes. The
/// result can be read and looks the same: texts, whole numbers, flags, members and items at every
/// level. Numbers with a fraction are left unsaid, as the last digit of one may change. A line break
/// after the result makes no difference to a reader.
#[verifier::external_body]
pub(crate) fn write_pretty(v: &Value) -> (r: Result<Vec<u8>, serde_json::Error>)
    requires
        nests_within(*v, DEEPEST as nat),
    ensures
        r is Ok,
        r->Ok_0@ == pretty(*v),
        holds(r->Ok_0@, *v),
        document(r->Ok_0@.push(10u8)) == document(r->Ok_0@),
{
    serde_json::to_vec_pretty(v)
}

/// `Value::to_string`: the document written out on one line, a function of the document alone.
/// The result can be read and looks the same, as with [`write_pretty`].
#[verifier::external_body]
pub(crate) fn write_compact(v: &Value) -> (r: String)
    requires
        nests_within(*v, DEEPEST as nat),
    ensures
        r@ == compact(*v),
        holds(encode_utf8(r@), *v),
{
    v.to_string()
}

/// `serde_json::Error`, why a document could not be written.
#[verifier::external_type_specification]
#[verifier::external_body]
pub struct ExError(serde_json::Error);

/// `serde_json::to_string` of a text: a JSON string, a function of the text alone, which cannot
/// fail for a text.
#[verifier::external_body]
pub(crate) fn quote(s: &str) -> (r: Result<String, serde_json::Error>)
    ensures
        r is Ok,
        r->Ok_0@ == quoted(s@),
{
    serde_json::to_string(s)
}

/// Documents that look the same have the same members, which look the same.
pub proof fn lemma_members_alike(v: Value, w: Value, key: Seq<char>)
    requires
        reads_alike(v, w),
        members(v) is Some,
    ensures
        members(w) is Some,
        members(w)->0.dom() == members(v)->0.dom(),
        members(v)->0.dom().contains(key) ==> reads_alike(members(v)->0[key], members(w)->0[key]),
        member_text(w, key) == member_text(v, key),
        member_number(w, key) == member_number(v, key),
{
    assert(alike(v, w, 0));
    let a = members(v)->0;
    let b = members(w)->0;
    if a.dom().contains(key) {
        assert forall|n: nat| #[trigger] alike(a[key], b[key], n) by {
            assert(alike(v, w, n + 1));
        }
        assert(alike(a[key], b[key], 0));
    }
}

/// The text of the member `key` of a document.
pub(crate) fn member_str<'a>(v: &'a Value, key: &str) -> (r: Option<&'a str>)
    ensures
        match member_text(*v, key@) {
            Some(t) => r matches Some(s) && s@ == t,
            None => r is None,
        },
{
    match get(v, key) {
        Some(w) => as_text(w),
        None => None,
    }
}

} // verus!
