//! A JSON value model: what the trigger conditions read of an event payload.
//!
//! An object is a list of entries read as a map: the first entry with a key
//! gives that key's value, and two objects are equal when they have the same
//! keys with equal values, in whatever order. A `Float` holds the IEEE-754
//! bits of a finite `double`.
use vstd::prelude::*;

verus! {

/// A JSON number, as `serde_json` stores one.
#[derive(Clone, Copy, Debug)]
pub enum JsonNumber {
    /// A non-negative integer.
    PosInt(u64),
    /// A negative integer.
    NegInt(i64),
    /// The bits of a finite double.
    Float(u64),
}

/// A JSON value.
#[derive(Debug)]
pub enum JsonValue {
    Null,
    Bool(bool),
    Number(JsonNumber),
    String(String),
    Array(Vec<JsonValue>),
    Object(Vec<(String, JsonValue)>),
}

/// The mathematical form of a [`JsonValue`].
pub enum Json {
    Null,
    Bool(bool),
    Number(JsonNumber),
    Str(Seq<char>),
    Array(Seq<Json>),
    Object(Seq<(Seq<char>, Json)>),
}

pub open spec fn json_view(v: JsonValue) -> Json
    decreases v, 0int,
{
    match v {
        JsonValue::Null => Json::Null,
        JsonValue::Bool(b) => Json::Bool(b),
        JsonValue::Number(n) => Json::Number(n),
        JsonValue::String(s) => Json::Str(s@),
        JsonValue::Array(xs) => Json::Array(json_view_seq(xs@)),
        JsonValue::Object(es) => Json::Object(json_view_entries(es@)),
    }
}

pub open spec fn json_view_seq(xs: Seq<JsonValue>) -> Seq<Json>
    decreases xs, xs.len(),
{
    if xs.len() == 0 {
        Seq::<Json>::empty()
    } else {
        seq![json_view(xs[0])] + json_view_seq(xs.drop_first())
    }
}

pub open spec fn json_view_entries(es: Seq<(String, JsonValue)>) -> Seq<(Seq<char>, Json)>
    decreases es, es.len(),
{
    if es.len() == 0 {
        Seq::<(Seq<char>, Json)>::empty()
    } else {
        seq![entry_view(es[0])] + json_view_entries(es.drop_first())
    }
}

pub open spec fn entry_view(e: (String, JsonValue)) -> (Seq<char>, Json)
    decreases e, 1int,
{
    (e.0@, json_view(e.1))
}

impl View for JsonValue {
    type V = Json;

    open spec fn view(&self) -> Json {
        json_view(*self)
    }
}

proof fn lemma_view_seq(xs: Seq<JsonValue>)
    ensures
        json_view_seq(xs).len() == xs.len(),
        forall|i: int| 0 <= i < xs.len() ==> #[trigger] json_view_seq(xs)[i] == json_view(xs[i]),
    decreases xs.len(),
{
    if xs.len() > 0 {
        lemma_view_seq(xs.drop_first());
        assert(json_view_seq(xs) == seq![json_view(xs[0])] + json_view_seq(xs.drop_first()));
        assert forall|i: int| 0 <= i < xs.len() implies #[trigger] json_view_seq(xs)[i] == json_view(
            xs[i],
        ) by {
            if i > 0 {
                assert(json_view_seq(xs.drop_first())[i - 1] == json_view(xs.drop_first()[i - 1]));
            }
        }
    }
}

proof fn lemma_view_entries(es: Seq<(String, JsonValue)>)
    ensures
        json_view_entries(es).len() == es.len(),
        forall|i: int| 0 <= i < es.len() ==> #[trigger] json_view_entries(es)[i] == entry_view(es[i]),
    decreases es.len(),
{
    if es.len() > 0 {
        lemma_view_entries(es.drop_first());
        assert(json_view_entries(es) == seq![entry_view(es[0])] + json_view_entries(es.drop_first()));
        assert forall|i: int| 0 <= i < es.len() implies #[trigger] json_view_entries(es)[i]
            == entry_view(es[i]) by {
            if i > 0 {
                assert(json_view_entries(es.drop_first())[i - 1] == entry_view(
                    es.drop_first()[i - 1],
                ));
            }
        }
    }
}

/// The elements of an array value, seen as JSON.
pub proof fn lemma_array_view(xs: Vec<JsonValue>)
    ensures
        JsonValue::Array(xs)@ == Json::Array(json_view_seq(xs@)),
        json_view_seq(xs@).len() == xs@.len(),
        forall|i: int| 0 <= i < xs@.len() ==> #[trigger] json_view_seq(xs@)[i] == xs@[i]@,
{
    lemma_view_seq(xs@);
}

/// The entries of an object value, seen as JSON.
pub proof fn lemma_object_view(es: Vec<(String, JsonValue)>)
    ensures
        JsonValue::Object(es)@ == Json::Object(json_view_entries(es@)),
        json_view_entries(es@).len() == es@.len(),
        forall|i: int|
            0 <= i < es@.len() ==> (#[trigger] json_view_entries(es@)[i]).0 == es@[i].0@
                && json_view_entries(es@)[i].1 == es@[i].1@,
{
    lemma_view_entries(es@);
}

/// A value is a string exactly when its view is.
pub proof fn lemma_view_str(v: JsonValue)
    ensures
        (v@ is Str) == (v is String),
        v is String ==> v@ == Json::Str(v->String_0@),
{
    match v {
        JsonValue::Null => {},
        JsonValue::Bool(_) => {},
        JsonValue::Number(_) => {},
        JsonValue::String(_) => {},
        JsonValue::Array(_) => {},
        JsonValue::Object(_) => {},
    }
}

impl Clone for JsonValue {
    fn clone(&self) -> (r: Self)
        ensures
            r@ == self@,
    {
        json_clone(self)
    }
}

/// Copies a value.
pub fn json_clone(v: &JsonValue) -> (r: JsonValue)
    ensures
        r@ == v@,
    decreases v,
{
    match v {
        JsonValue::Null => JsonValue::Null,
        JsonValue::Bool(b) => JsonValue::Bool(*b),
        JsonValue::Number(n) => JsonValue::Number(*n),
        JsonValue::String(s) => JsonValue::String(s.clone()),
        JsonValue::Array(xs) => {
            let mut out: Vec<JsonValue> = Vec::new();
            let mut i: usize = 0;
            while i < xs.len()
                invariant
                    *v == JsonValue::Array(*xs),
                    i <= xs.len(),
                    out.len() == i,
                    forall|k: int| 0 <= k < i ==> #[trigger] json_view(out@[k]) == json_view(xs@[k]),
                decreases xs.len() - i,
            {
                proof {
                    assert(decreases_to!(*v => v->Array_0));
                    assert(decreases_to!(*xs => xs@));
                    assert(decreases_to!(xs@ => xs@[i as int]));
                }
                let c = json_clone(&xs[i]);
                out.push(c);
                i = i + 1;
            }
            proof {
                lemma_view_seq(xs@);
                lemma_view_seq(out@);
                assert(json_view_seq(out@) =~= json_view_seq(xs@));
            }
            JsonValue::Array(out)
        },
        JsonValue::Object(es) => {
            let mut out: Vec<(String, JsonValue)> = Vec::new();
            let mut i: usize = 0;
            while i < es.len()
                invariant
                    *v == JsonValue::Object(*es),
                    i <= es.len(),
                    out.len() == i,
                    forall|k: int| 0 <= k < i ==> #[trigger] entry_view(out@[k]) == entry_view(es@[k]),
                decreases es.len() - i,
            {
                proof {
                    assert(decreases_to!(*v => v->Object_0));
                    assert(decreases_to!(*es => es@));
                    assert(decreases_to!(es@ => es@[i as int]));
                    assert(decreases_to!(es@[i as int] => es@[i as int].1));
                }
                let k = es[i].0.clone();
                let c = json_clone(&es[i].1);
                out.push((k, c));
                proof {
                    assert(entry_view(out@[i as int]) == (out@[i as int].0@, json_view(out@[i as int].1)));
                    assert(entry_view(es@[i as int]) == (es@[i as int].0@, json_view(es@[i as int].1)));
                }
                i = i + 1;
            }
            proof {
                lemma_view_entries(es@);
                lemma_view_entries(out@);
                assert(json_view_entries(out@) =~= json_view_entries(es@));
            }
            JsonValue::Object(out)
        },
    }
}


// ── Numbers ─────────────────────────────────────────────────────────

/// The position of a non-NaN double, given by its bits, on the number line:
/// doubles compare as these integers do, and `-0.0` sits with `0.0`.
pub open spec fn f64_key(bits: u64) -> int {
    if bits >= 0x8000_0000_0000_0000u64 {
        -(bits - 0x8000_0000_0000_0000u64)
    } else {
        bits as int
    }
}

/// `serde_json`'s equality of numbers.
pub open spec fn number_eq(a: JsonNumber, b: JsonNumber) -> bool {
    match (a, b) {
        (JsonNumber::PosInt(x), JsonNumber::PosInt(y)) => x == y,
        (JsonNumber::NegInt(x), JsonNumber::NegInt(y)) => x == y,
        (JsonNumber::Float(x), JsonNumber::Float(y)) => f64_key(x) == f64_key(y),
        _ => false,
    }
}

/// The bits of `serde_json::Number::from(u).as_f64()`.
pub uninterp spec fn u64_as_f64_bits(u: u64) -> Option<u64>;

/// The bits of `serde_json::Number::from(i).as_f64()`.
pub uninterp spec fn i64_as_f64_bits(i: i64) -> Option<u64>;

/// The bits of `as_f64` of a number.
pub open spec fn number_as_f64_bits(n: JsonNumber) -> Option<u64> {
    match n {
        JsonNumber::PosInt(u) => u64_as_f64_bits(u),
        JsonNumber::NegInt(i) => i64_as_f64_bits(i),
        JsonNumber::Float(b) => Some(b),
    }
}

/// The largest magnitude up to which every integer is a double exactly: 2^53.
pub open spec fn exact_bound() -> int {
    0x20_0000_0000_0000int
}

/// `x` is at most 2^53 in magnitude.
pub open spec fn within_exact(x: int) -> bool {
    -exact_bound() <= x && x <= exact_bound()
}

/// The doubles with bits `p` and `q` stand in the order of the integers `a`
/// and `b`.
pub open spec fn same_order(p: Option<u64>, q: Option<u64>, a: int, b: int) -> bool {
    &&& p is Some
    &&& q is Some
    &&& (f64_key(p->0) < f64_key(q->0) <==> a < b)
    &&& (f64_key(q->0) < f64_key(p->0) <==> b < a)
}

/// Calls `serde_json::Number::as_f64` on the number made from `u`: the result
/// is named [`u64_as_f64_bits`]. The crate's source returns `Some(u as f64)`
/// for every integer, and `as` gives the closest double; up to 2^53 in
/// magnitude that double is the integer itself, so such integers compare as
/// their doubles do.
#[verifier::external_body]
fn pos_int_as_f64_bits(u: u64) -> (r: Option<u64>)
    ensures
        r == u64_as_f64_bits(u),
        r is Some,
        forall|v: u64|
            within_exact(u as int) && within_exact(v as int) ==> same_order(r, #[trigger] u64_as_f64_bits(v), u as int, v as int),
        forall|j: i64|
            within_exact(u as int) && within_exact(j as int) ==> same_order(r, #[trigger] i64_as_f64_bits(j), u as int, j as int),
{
    serde_json::Number::from(u).as_f64().map(|f| f.to_bits())
}

/// Calls `serde_json::Number::as_f64` on the number made from `i`: the result
/// is named [`i64_as_f64_bits`]. The crate's source returns `Some(i as f64)`
/// for every integer; as for [`pos_int_as_f64_bits`], integers up to 2^53 in
/// magnitude compare as their doubles do.
#[verifier::external_body]
fn neg_int_as_f64_bits(i: i64) -> (r: Option<u64>)
    ensures
        r == i64_as_f64_bits(i),
        r is Some,
        forall|j: i64|
            within_exact(i as int) && within_exact(j as int) ==> same_order(r, #[trigger] i64_as_f64_bits(j), i as int, j as int),
        forall|v: u64|
            within_exact(i as int) && within_exact(v as int) ==> same_order(r, #[trigger] u64_as_f64_bits(v), i as int, v as int),
{
    serde_json::Number::from(i).as_f64().map(|f| f.to_bits())
}

/// The integer a number holds; 0 for a double.
pub open spec fn int_of(n: JsonNumber) -> int {
    match n {
        JsonNumber::PosInt(u) => u as int,
        JsonNumber::NegInt(i) => i as int,
        JsonNumber::Float(_) => 0,
    }
}

/// An integer of at most 2^53 in magnitude, which a double holds exactly.
pub open spec fn exact_int(n: JsonNumber) -> bool {
    !(n is Float) && within_exact(int_of(n))
}

/// `as_f64` of a number, as the bits of the double.
pub fn number_as_f64(n: JsonNumber) -> (r: Option<u64>)
    ensures
        r == number_as_f64_bits(n),
        r is Some,
        forall|m: JsonNumber|
            exact_int(n) && exact_int(m) ==> same_order(r, #[trigger] number_as_f64_bits(m), int_of(n), int_of(m)),
{
    match n {
        JsonNumber::PosInt(u) => pos_int_as_f64_bits(u),
        JsonNumber::NegInt(i) => neg_int_as_f64_bits(i),
        JsonNumber::Float(b) => Some(b),
    }
}

/// Whether the double with bits `a` is greater than the one with bits `b`;
/// neither is NaN.
pub fn f64_bits_gt(a: u64, b: u64) -> (r: bool)
    ensures
        r == (f64_key(a) > f64_key(b)),
{
    let sign: u64 = 0x8000_0000_0000_0000u64;
    if a >= sign {
        if b >= sign {
            a < b
        } else {
            false
        }
    } else {
        if b >= sign {
            !(a == 0 && b == sign)
        } else {
            a > b
        }
    }
}

fn number_eq_exec(a: JsonNumber, b: JsonNumber) -> (r: bool)
    ensures
        r == number_eq(a, b),
{
    match (a, b) {
        (JsonNumber::PosInt(x), JsonNumber::PosInt(y)) => x == y,
        (JsonNumber::NegInt(x), JsonNumber::NegInt(y)) => x == y,
        (JsonNumber::Float(x), JsonNumber::Float(y)) => !f64_bits_gt(x, y) && !f64_bits_gt(y, x),
        _ => false,
    }
}

// ── Equality ─────────────────────────────────────────────────────────

/// Where the first entry with `key` stands in `es`, or -1 when there is none.
pub open spec fn first_index(es: Seq<(Seq<char>, Json)>, key: Seq<char>) -> int
    decreases es.len(),
{
    if es.len() == 0 {
        -1
    } else if es[0].0 == key {
        0
    } else {
        let r = first_index(es.drop_first(), key);
        if r < 0 {
            -1
        } else {
            r + 1
        }
    }
}

/// Every key of `es` is a key of `fs`.
pub open spec fn keys_within(es: Seq<(Seq<char>, Json)>, fs: Seq<(Seq<char>, Json)>) -> bool {
    forall|i: int| 0 <= i < es.len() ==> first_index(fs, #[trigger] es[i].0) >= 0
}

/// `serde_json`'s equality of values. Objects are maps: they are equal when
/// they have the same keys and equal values under each key, whatever the
/// order of their entries; of two entries with one key, the first counts.
pub open spec fn json_eq(a: Json, b: Json) -> bool
    decreases a, 0int,
{
    match a {
        Json::Null => b is Null,
        Json::Bool(x) => b is Bool && b->Bool_0 == x,
        Json::Number(n) => b is Number && number_eq(n, b->Number_0),
        Json::Str(s) => b is Str && b->Str_0 == s,
        Json::Array(xs) => b is Array && json_eq_seq(xs, b->Array_0),
        Json::Object(es) => b is Object && keys_within(es, b->Object_0) && keys_within(b->Object_0, es) && (
        forall|i: int|
            0 <= i < es.len() && first_index(es, es[i].0) == i ==> json_eq(
                #[trigger] es[i].1,
                b->Object_0[first_index(b->Object_0, es[i].0)].1,
            )),
    }
}

pub open spec fn json_eq_seq(xs: Seq<Json>, ys: Seq<Json>) -> bool
    decreases xs, xs.len(),
{
    if xs.len() == 0 {
        ys.len() == 0
    } else {
        ys.len() > 0 && json_eq(xs[0], ys[0]) && json_eq_seq(xs.drop_first(), ys.drop_first())
    }
}

/// `first_index` finds the first entry with the key.
pub proof fn lemma_first_index(es: Seq<(Seq<char>, Json)>, key: Seq<char>, i: int)
    requires
        0 <= i <= es.len(),
        forall|k: int| 0 <= k < i ==> (#[trigger] es[k]).0 != key,
    ensures
        i < es.len() && es[i].0 == key ==> first_index(es, key) == i,
        i == es.len() ==> first_index(es, key) == -1,
    decreases i,
{
    if i > 0 {
        assert(es[0].0 != key);
        assert forall|k: int| 0 <= k < i - 1 implies (#[trigger] es.drop_first()[k]).0 != key by {
            assert(es[k + 1].0 != key);
        }
        lemma_first_index(es.drop_first(), key, i - 1);
    }
}

/// `first_index` is -1 or the index of an entry with the key, with none before.
pub proof fn lemma_first_index_range(es: Seq<(Seq<char>, Json)>, key: Seq<char>)
    ensures
        -1 <= first_index(es, key) < es.len(),
        first_index(es, key) >= 0 ==> es[first_index(es, key)].0 == key,
        forall|k: int| 0 <= k < es.len() && (first_index(es, key) < 0 || k < first_index(es, key)) ==> (#[trigger] es[k]).0 != key,
    decreases es.len(),
{
    if es.len() > 0 && es[0].0 != key {
        let t = es.drop_first();
        lemma_first_index_range(t, key);
        assert forall|k: int| 0 <= k < es.len() && (first_index(es, key) < 0 || k < first_index(es, key)) implies (#[trigger] es[k]).0 != key by {
            if k > 0 {
                assert(es[k] == t[k - 1]);
            }
        }
    }
}

proof fn lemma_eq_seq(xs: Seq<Json>, ys: Seq<Json>)
    ensures
        json_eq_seq(xs, ys) <==> (xs.len() == ys.len() && forall|i: int|
            0 <= i < xs.len() ==> #[trigger] json_eq(xs[i], ys[i])),
    decreases xs.len(),
{
    if xs.len() > 0 && ys.len() > 0 {
        let (xt, yt) = (xs.drop_first(), ys.drop_first());
        lemma_eq_seq(xt, yt);
        assert(json_eq_seq(xs, ys) == (json_eq(xs[0], ys[0]) && json_eq_seq(xt, yt)));
        if xs.len() == ys.len() && forall|i: int| 0 <= i < xs.len() ==> #[trigger] json_eq(xs[i], ys[i]) {
            assert(json_eq(xs[0], ys[0]));
            assert forall|i: int| 0 <= i < xt.len() implies #[trigger] json_eq(xt[i], yt[i]) by {
                assert(json_eq(xs[i + 1], ys[i + 1]));
            }
        }
        if json_eq_seq(xs, ys) {
            assert forall|i: int| 0 <= i < xs.len() implies #[trigger] json_eq(xs[i], ys[i]) by {
                if i > 0 {
                    assert(json_eq(xt[i - 1], yt[i - 1]));
                }
            }
        }
    }
}

/// `serde_json`'s `==` on values.
pub fn json_equal(a: &JsonValue, b: &JsonValue) -> (r: bool)
    ensures
        r == json_eq(a@, b@),
    decreases a,
{
    match a {
        JsonValue::Null => match b {
            JsonValue::Null => true,
            _ => false,
        },
        JsonValue::Bool(x) => match b {
            JsonValue::Bool(y) => *x == *y,
            _ => false,
        },
        JsonValue::Number(x) => match b {
            JsonValue::Number(y) => number_eq_exec(*x, *y),
            _ => false,
        },
        JsonValue::String(x) => match b {
            JsonValue::String(y) => *x == *y,
            _ => false,
        },
        JsonValue::Array(xs) => {
            let ys = match b {
                JsonValue::Array(ys) => ys,
                _ => {
                    return false;
                },
            };
            proof {
                lemma_array_view(*xs);
                lemma_array_view(*ys);
                lemma_eq_seq(json_view_seq(xs@), json_view_seq(ys@));
            }
            if xs.len() != ys.len() {
                return false;
            }
            let mut i: usize = 0;
            while i < xs.len()
                invariant
                    i <= xs.len(),
                    xs.len() == ys.len(),
                    *a == JsonValue::Array(*xs),
                    json_eq(a@, b@) <==> (forall|k: int|
                        0 <= k < xs@.len() ==> #[trigger] json_eq(json_view_seq(xs@)[k], json_view_seq(ys@)[k])),
                    forall|k: int| 0 <= k < xs@.len() ==> #[trigger] json_view_seq(xs@)[k] == xs@[k]@,
                    forall|k: int| 0 <= k < ys@.len() ==> #[trigger] json_view_seq(ys@)[k] == ys@[k]@,
                    forall|k: int| 0 <= k < i ==> #[trigger] json_eq(json_view_seq(xs@)[k], json_view_seq(ys@)[k]),
                decreases xs.len() - i,
            {
                proof {
                    assert(decreases_to!(*a => a->Array_0));
                    assert(decreases_to!(*xs => xs@));
                    assert(decreases_to!(xs@ => xs@[i as int]));
                }
                let ghost xi = json_view_seq(xs@)[i as int];
                let ghost yi = json_view_seq(ys@)[i as int];
                if !json_equal(&xs[i], &ys[i]) {
                    assert(!json_eq(xi, yi));
                    return false;
                }
                assert(json_eq(xi, yi));
                i = i + 1;
            }
            true
        },
        JsonValue::Object(es) => {
            let fs = match b {
                JsonValue::Object(fs) => fs,
                _ => {
                    return false;
                },
            };
            let ghost ev = json_view_entries(es@);
            let ghost fv = json_view_entries(fs@);
            proof {
                lemma_object_view(*es);
                lemma_object_view(*fs);
            }
            let mut i: usize = 0;
            while i < es.len()
                invariant
                    i <= es.len(),
                    ev == json_view_entries(es@),
                    fv == json_view_entries(fs@),
                    *a == JsonValue::Object(*es),
                    *b == JsonValue::Object(*fs),
                    a@ == Json::Object(ev),
                    b@ == Json::Object(fv),
                    ev.len() == es@.len(),
                    fv.len() == fs@.len(),
                    forall|k: int| 0 <= k < es@.len() ==> (#[trigger] ev[k]).0 == es@[k].0@ && ev[k].1 == es@[k].1@,
                    forall|k: int| 0 <= k < fs@.len() ==> (#[trigger] fv[k]).0 == fs@[k].0@ && fv[k].1 == fs@[k].1@,
                    forall|k: int| 0 <= k < i ==> first_index(fv, (#[trigger] ev[k]).0) >= 0,
                    forall|k: int|
                        0 <= k < i && first_index(ev, ev[k].0) == k ==> json_eq(
                            (#[trigger] ev[k]).1,
                            fv[first_index(fv, ev[k].0)].1,
                        ),
                decreases es.len() - i,
            {
                proof {
                    assert(decreases_to!(*a => a->Object_0));
                    assert(decreases_to!(*es => es@));
                    assert(decreases_to!(es@ => es@[i as int]));
                    assert(decreases_to!(es@[i as int] => es@[i as int].1));
                }
                assert(ev[i as int].0 == es@[i as int].0@);
                let j = find_key(fs, &es[i].0);
                if j == fs.len() {
                    assert(!keys_within(ev, fv));
                    return false;
                }
                let f = find_key(es, &es[i].0);
                proof {
                    lemma_first_index_range(ev, ev[i as int].0);
                }
                if f == i {
                    if !json_equal(&es[i].1, &fs[j].1) {
                        assert(!json_eq(ev[i as int].1, fv[first_index(fv, ev[i as int].0)].1));
                        return false;
                    }
                }
                i = i + 1;
            }
            let mut j: usize = 0;
            while j < fs.len()
                invariant
                    j <= fs.len(),
                    ev == json_view_entries(es@),
                    fv == json_view_entries(fs@),
                    a@ == Json::Object(ev),
                    b@ == Json::Object(fv),
                    ev.len() == es@.len(),
                    fv.len() == fs@.len(),
                    forall|k: int| 0 <= k < es@.len() ==> (#[trigger] ev[k]).0 == es@[k].0@ && ev[k].1 == es@[k].1@,
                    forall|k: int| 0 <= k < fs@.len() ==> (#[trigger] fv[k]).0 == fs@[k].0@ && fv[k].1 == fs@[k].1@,
                    keys_within(ev, fv),
                    forall|k: int|
                        0 <= k < ev.len() && first_index(ev, ev[k].0) == k ==> json_eq(
                            (#[trigger] ev[k]).1,
                            fv[first_index(fv, ev[k].0)].1,
                        ),
                    forall|k: int| 0 <= k < j ==> first_index(ev, (#[trigger] fv[k]).0) >= 0,
                decreases fs.len() - j,
            {
                assert(fv[j as int].0 == fs@[j as int].0@);
                let f = find_key(es, &fs[j].0);
                if f == es.len() {
                    assert(!keys_within(fv, ev));
                    return false;
                }
                j = j + 1;
            }
            assert(keys_within(fv, ev));
            true
        },
    }
}

/// Where the first entry with `key` stands, or the length when none has it.
fn find_key(es: &Vec<(String, JsonValue)>, key: &String) -> (r: usize)
    ensures
        r <= es@.len(),
        first_index(json_view_entries(es@), key@) == if r < es@.len() { r as int } else { -1 },
{
    let ghost ev = json_view_entries(es@);
    proof {
        lemma_object_view(*es);
    }
    let mut i: usize = 0;
    while i < es.len()
        invariant
            i <= es@.len(),
            ev == json_view_entries(es@),
            ev.len() == es@.len(),
            forall|k: int| 0 <= k < es@.len() ==> (#[trigger] ev[k]).0 == es@[k].0@ && ev[k].1 == es@[k].1@,
            forall|k: int| 0 <= k < i ==> (#[trigger] ev[k]).0 != key@,
        decreases es@.len() - i,
    {
        assert(ev[i as int].0 == es@[i as int].0@);
        if es[i].0 == *key {
            proof {
                lemma_first_index(ev, key@, i as int);
            }
            return i;
        }
        i = i + 1;
    }
    proof {
        lemma_first_index(ev, key@, i as int);
    }
    i
}

} // verus!
