//! A JSON document tree, and the lookups that the chip codec makes in it.

use vstd::prelude::*;
use crate::error::DecodeError;

verus! {

/// A JSON number, kept in the form in which it was read.
#[derive(Clone, Copy, Debug, PartialEq, Eq, Structural)]
pub enum Number {
    /// A non-negative integer.
    PosInt(u64),
    /// A negative integer.
    NegInt(i64),
    /// A floating-point number, held as its IEEE-754 binary64 bit pattern.
    Float(u64),
}

/// A JSON value. An object lists its members in document order.
#[derive(Debug)]
pub enum JsonValue {
    Null,
    Bool(bool),
    Number(Number),
    String(String),
    Array(Vec<JsonValue>),
    Object(Vec<(String, JsonValue)>),
}

/// The mathematical value of a [`JsonValue`].
pub enum Json {
    Null,
    Bool(bool),
    Num(Number),
    Str(Seq<char>),
    Arr(Seq<Json>),
    Obj(Seq<(Seq<char>, Json)>),
}

pub open spec fn json_of(v: JsonValue) -> Json
    decreases v,
{
    match v {
        JsonValue::Null => Json::Null,
        JsonValue::Bool(b) => Json::Bool(b),
        JsonValue::Number(n) => Json::Num(n),
        JsonValue::String(s) => Json::Str(s@),
        JsonValue::Array(items) => Json::Arr(items_of(items@)),
        JsonValue::Object(fields) => Json::Obj(members_of(fields@)),
    }
}

pub open spec fn items_of(s: Seq<JsonValue>) -> Seq<Json>
    decreases s,
{
    if s.len() == 0 {
        Seq::empty()
    } else {
        items_of(s.drop_last()).push(json_of(s.last()))
    }
}

pub open spec fn members_of(s: Seq<(String, JsonValue)>) -> Seq<(Seq<char>, Json)>
    decreases s,
{
    if s.len() == 0 {
        Seq::empty()
    } else {
        members_of(s.drop_last()).push((s.last().0@, json_of(s.last().1)))
    }
}

impl View for JsonValue {
    type V = Json;

    open spec fn view(&self) -> Json {
        json_of(*self)
    }
}

/// The token that stands for "any value" in the operands of a gate.
pub open spec fn wildcard() -> Seq<char> {
    "_"@
}

/// The wildcard token as a string.
pub fn wildcard_token() -> (r: String)
    ensures
        r@ == wildcard(),
{
    "_".to_owned()
}

/// The value of the first member of `fields` named `key`.
pub open spec fn lookup(fields: Seq<(Seq<char>, Json)>, key: Seq<char>) -> Option<Json>
    decreases fields.len(),
{
    if fields.len() == 0 {
        None
    } else if fields[0].0 == key {
        Some(fields[0].1)
    } else {
        lookup(fields.drop_first(), key)
    }
}

/// No two members of `fields` share a name.
pub open spec fn keys_distinct<V>(fields: Seq<(Seq<char>, V)>) -> bool {
    forall|i: int, j: int| 0 <= i < j < fields.len() ==> fields[i].0 != fields[j].0
}

pub proof fn lemma_items_of(s: Seq<JsonValue>)
    ensures
        items_of(s).len() == s.len(),
        forall|k: int| 0 <= k < s.len() ==> #[trigger] items_of(s)[k] == s[k]@,
    decreases s.len(),
{
    if s.len() > 0 {
        lemma_items_of(s.drop_last());
    }
}

pub proof fn lemma_members_of(s: Seq<(String, JsonValue)>)
    ensures
        members_of(s).len() == s.len(),
        forall|k: int|
            0 <= k < s.len() ==> #[trigger] members_of(s)[k] == (s[k].0@, s[k].1@),
    decreases s.len(),
{
    if s.len() > 0 {
        lemma_members_of(s.drop_last());
    }
}

/// Looking past members that are not named `key` does not change the lookup.
proof fn lemma_lookup_from(fields: Seq<(Seq<char>, Json)>, key: Seq<char>, i: int)
    requires
        0 <= i < fields.len(),
        fields[i].0 != key,
    ensures
        lookup(fields.subrange(i, fields.len() as int), key) == lookup(
            fields.subrange(i + 1, fields.len() as int),
            key,
        ),
{
    assert(fields.subrange(i, fields.len() as int).drop_first() =~= fields.subrange(
        i + 1,
        fields.len() as int,
    ));
}

/// The member of an object named `key`, if there is one.
pub fn get_field<'a>(fields: &'a Vec<(String, JsonValue)>, key: &String) -> (r: Option<
    &'a JsonValue,
>)
    ensures
        match r {
            Some(v) => lookup(members_of(fields@), key@) == Some(v@),
            None => lookup(members_of(fields@), key@) is None,
        },
{
    let ghost m = members_of(fields@);
    proof {
        lemma_members_of(fields@);
        assert(m.subrange(0, m.len() as int) =~= m);
    }
    let mut i: usize = 0;
    while i < fields.len()
        invariant
            i <= fields.len(),
            m == members_of(fields@),
            m.len() == fields@.len(),
            forall|k: int| 0 <= k < fields@.len() ==> #[trigger] m[k] == (fields@[k].0@, fields@[k].1@),
            lookup(m, key@) == lookup(m.subrange(i as int, m.len() as int), key@),
        decreases fields.len() - i,
    {
        if fields[i].0 == *key {
            assert(m[i as int].0 == key@);
            return Some(&fields[i].1);
        }
        proof {
            lemma_lookup_from(m, key@, i as int);
        }
        i = i + 1;
    }
    None
}

/// Whether no two members of an object share a name.
pub fn has_distinct_keys(fields: &Vec<(String, JsonValue)>) -> (r: bool)
    ensures
        r == keys_distinct(members_of(fields@)),
{
    let ghost m = members_of(fields@);
    proof {
        lemma_members_of(fields@);
    }
    let n = fields.len();
    let mut i: usize = 0;
    while i < n
        invariant
            n == fields.len(),
            i <= n,
            m == members_of(fields@),
            m.len() == n,
            forall|k: int| 0 <= k < n ==> #[trigger] m[k] == (fields@[k].0@, fields@[k].1@),
            forall|a: int, b: int| 0 <= a < b < n && a < i ==> m[a].0 != m[b].0,
        decreases n - i,
    {
        let mut j: usize = i + 1;
        while j < n
            invariant
                n == fields.len(),
                i < n,
                i < j <= n,
                m == members_of(fields@),
                m.len() == n,
                forall|k: int| 0 <= k < n ==> #[trigger] m[k] == (fields@[k].0@, fields@[k].1@),
                forall|a: int, b: int| 0 <= a < b < n && a < i ==> m[a].0 != m[b].0,
                forall|b: int| i < b < j ==> m[i as int].0 != #[trigger] m[b].0,
            decreases n - j,
        {
            if fields[i].0 == fields[j].0 {
                assert(m[i as int].0 == m[j as int].0);
                return false;
            }
            j = j + 1;
        }
        i = i + 1;
    }
    true
}

/// The member named by `fields[i].0` is found at `i` when names are distinct.
pub proof fn lemma_lookup_found(fields: Seq<(Seq<char>, Json)>, i: int)
    requires
        keys_distinct(fields),
        0 <= i < fields.len(),
    ensures
        lookup(fields, fields[i].0) == Some(fields[i].1),
    decreases i,
{
    if i > 0 {
        lemma_lookup_found(fields.drop_first(), i - 1);
    }
}

/// A name that no member carries is not found.
pub proof fn lemma_lookup_absent(fields: Seq<(Seq<char>, Json)>, key: Seq<char>)
    requires
        forall|i: int| 0 <= i < fields.len() ==> #[trigger] fields[i].0 != key,
    ensures
        lookup(fields, key) is None,
    decreases fields.len(),
{
    if fields.len() > 0 {
        assert(fields[0].0 != key);
        assert forall|i: int| 0 <= i < fields.drop_first().len() implies #[trigger] fields.drop_first()[i].0
            != key by {
            assert(fields.drop_first()[i] == fields[i + 1]);
        }
        lemma_lookup_absent(fields.drop_first(), key);
    }
}

/// Decodes every item of an array with `f`; the first failure, in document
/// order, is the result.
pub open spec fn decode_items<T>(
    items: Seq<Json>,
    f: spec_fn(Json) -> Result<T, DecodeError>,
) -> Result<Seq<T>, DecodeError>
    decreases items.len(),
{
    if items.len() == 0 {
        Ok(Seq::empty())
    } else {
        match decode_items(items.drop_last(), f) {
            Err(e) => Err(e),
            Ok(xs) => match f(items.last()) {
                Err(e) => Err(e),
                Ok(x) => Ok(xs.push(x)),
            },
        }
    }
}

/// Decodes the value of every member of an object with `f`, keeping the
/// names; the first failure, in document order, is the result.
pub open spec fn decode_members<T>(
    fields: Seq<(Seq<char>, Json)>,
    f: spec_fn(Json) -> Result<T, DecodeError>,
) -> Result<Seq<(Seq<char>, T)>, DecodeError>
    decreases fields.len(),
{
    if fields.len() == 0 {
        Ok(Seq::empty())
    } else {
        match decode_members(fields.drop_last(), f) {
            Err(e) => Err(e),
            Ok(xs) => match f(fields.last().1) {
                Err(e) => Err(e),
                Ok(x) => Ok(xs.push((fields.last().0, x))),
            },
        }
    }
}

pub proof fn lemma_decode_items_step<T>(
    items: Seq<Json>,
    f: spec_fn(Json) -> Result<T, DecodeError>,
    i: int,
)
    requires
        0 <= i < items.len(),
    ensures
        decode_items(items.subrange(0, i + 1), f) == match decode_items(items.subrange(0, i), f) {
            Err(e) => Err(e),
            Ok(xs) => match f(items[i]) {
                Err(e) => Err(e),
                Ok(x) => Ok(xs.push(x)),
            },
        },
{
    assert(items.subrange(0, i + 1).drop_last() =~= items.subrange(0, i));
}

/// A failure in a prefix is the failure of the whole.
pub proof fn lemma_decode_items_error<T>(
    items: Seq<Json>,
    f: spec_fn(Json) -> Result<T, DecodeError>,
    i: int,
    j: int,
)
    requires
        0 <= i <= j <= items.len(),
        decode_items(items.subrange(0, i), f) is Err,
    ensures
        decode_items(items.subrange(0, j), f) == decode_items(items.subrange(0, i), f),
    decreases j - i,
{
    if j > i {
        lemma_decode_items_error(items, f, i, j - 1);
        lemma_decode_items_step(items, f, j - 1);
    }
}

/// What a successful decoding of items holds: each item decoded on its own.
pub proof fn lemma_decode_items_ok<T>(items: Seq<Json>, f: spec_fn(Json) -> Result<T, DecodeError>)
    requires
        decode_items(items, f) is Ok,
    ensures
        decode_items(items, f)->Ok_0.len() == items.len(),
        forall|i: int|
            0 <= i < items.len() ==> f(#[trigger] items[i]) == Ok::<T, DecodeError>(
                decode_items(items, f)->Ok_0[i],
            ),
    decreases items.len(),
{
    if items.len() > 0 {
        lemma_decode_items_ok(items.drop_last(), f);
        let xs = decode_items(items, f)->Ok_0;
        assert forall|i: int| 0 <= i < items.len() implies f(#[trigger] items[i]) == Ok::<
            T,
            DecodeError,
        >(xs[i]) by {
            if i < items.len() - 1 {
                assert(items[i] == items.drop_last()[i]);
            }
        }
    }
}

/// Items that `f` decodes one by one decode together, in order.
pub proof fn lemma_decode_items_each<T>(
    ys: Seq<Json>,
    xs: Seq<T>,
    f: spec_fn(Json) -> Result<T, DecodeError>,
)
    requires
        ys.len() == xs.len(),
        forall|i: int| 0 <= i < ys.len() ==> f(#[trigger] ys[i]) == Ok::<T, DecodeError>(xs[i]),
    ensures
        decode_items(ys, f) == Ok::<Seq<T>, DecodeError>(xs),
    decreases ys.len(),
{
    if ys.len() == 0 {
        assert(xs =~= Seq::<T>::empty());
    } else {
        let n = ys.len() - 1;
        assert forall|i: int| 0 <= i < ys.drop_last().len() implies f(
            #[trigger] ys.drop_last()[i],
        ) == Ok::<T, DecodeError>(xs.drop_last()[i]) by {
            assert(f(ys[i]) == Ok::<T, DecodeError>(xs[i]));
        }
        lemma_decode_items_each(ys.drop_last(), xs.drop_last(), f);
        assert(f(ys[n]) == Ok::<T, DecodeError>(xs[n]));
        assert(xs.drop_last().push(xs[n]) =~= xs);
    }
}

pub proof fn lemma_decode_members_step<T>(
    fields: Seq<(Seq<char>, Json)>,
    f: spec_fn(Json) -> Result<T, DecodeError>,
    i: int,
)
    requires
        0 <= i < fields.len(),
    ensures
        decode_members(fields.subrange(0, i + 1), f) == match decode_members(
            fields.subrange(0, i),
            f,
        ) {
            Err(e) => Err(e),
            Ok(xs) => match f(fields[i].1) {
                Err(e) => Err(e),
                Ok(x) => Ok(xs.push((fields[i].0, x))),
            },
        },
{
    assert(fields.subrange(0, i + 1).drop_last() =~= fields.subrange(0, i));
}

/// A failure in a prefix is the failure of the whole.
pub proof fn lemma_decode_members_error<T>(
    fields: Seq<(Seq<char>, Json)>,
    f: spec_fn(Json) -> Result<T, DecodeError>,
    i: int,
    j: int,
)
    requires
        0 <= i <= j <= fields.len(),
        decode_members(fields.subrange(0, i), f) is Err,
    ensures
        decode_members(fields.subrange(0, j), f) == decode_members(fields.subrange(0, i), f),
    decreases j - i,
{
    if j > i {
        lemma_decode_members_error(fields, f, i, j - 1);
        lemma_decode_members_step(fields, f, j - 1);
    }
}

/// A decoded object keeps the names of its members, in order.
pub proof fn lemma_decode_members_keys<T>(
    fields: Seq<(Seq<char>, Json)>,
    f: spec_fn(Json) -> Result<T, DecodeError>,
)
    requires
        decode_members(fields, f) is Ok,
    ensures
        decode_members(fields, f)->Ok_0.len() == fields.len(),
        forall|i: int|
            0 <= i < fields.len() ==> (#[trigger] decode_members(fields, f)->Ok_0[i]).0
                == fields[i].0,
        forall|i: int|
            0 <= i < fields.len() ==> f(fields[i].1) == Ok::<T, DecodeError>(
                decode_members(fields, f)->Ok_0[i].1,
            ),
    decreases fields.len(),
{
    if fields.len() > 0 {
        lemma_decode_members_keys(fields.drop_last(), f);
    }
}

/// Members whose values `f` decodes one by one decode together, in order.
pub proof fn lemma_decode_members_each<T>(
    ys: Seq<(Seq<char>, Json)>,
    xs: Seq<(Seq<char>, T)>,
    f: spec_fn(Json) -> Result<T, DecodeError>,
)
    requires
        ys.len() == xs.len(),
        forall|i: int|
            0 <= i < ys.len() ==> (#[trigger] ys[i]).0 == xs[i].0 && f(ys[i].1) == Ok::<
                T,
                DecodeError,
            >(xs[i].1),
    ensures
        decode_members(ys, f) == Ok::<Seq<(Seq<char>, T)>, DecodeError>(xs),
    decreases ys.len(),
{
    if ys.len() == 0 {
        assert(xs =~= Seq::<(Seq<char>, T)>::empty());
    } else {
        let n = ys.len() - 1;
        assert forall|i: int| 0 <= i < ys.drop_last().len() implies (
        #[trigger] ys.drop_last()[i]).0 == xs.drop_last()[i].0 && f(ys.drop_last()[i].1) == Ok::<
            T,
            DecodeError,
        >(xs.drop_last()[i].1) by {
            assert(ys[i].0 == xs[i].0);
        }
        lemma_decode_members_each(ys.drop_last(), xs.drop_last(), f);
        assert(ys[n].0 == xs[n].0);
        assert(f(ys[n].1) == Ok::<T, DecodeError>(xs[n].1));
        assert(xs.drop_last().push((ys[n].0, xs[n].1)) =~= xs);
    }
}

} // verus!
