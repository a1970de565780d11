//! Condition evaluation for trigger rules over a JSON event payload.
//!
//! A condition is an object that maps dotted field paths to operators, for
//! example `{"amount": {"$gt": 100}, "user.level": {"$gte": 3}}`. It holds when
//! every path leads to a value and every operator holds of that value. An
//! operator value that is not an object is compared to the field for
//! equality. Limits bound the path depth, the number of operators and the
//! length of the strings that `$contains` searches.
use vstd::prelude::*;
use vstd::utf8::encode_utf8;
use crate::json::{
    exact_int, f64_bits_gt, f64_key, first_index, int_of, lemma_first_index_range, json_eq, json_equal, json_view_entries, json_view_seq, lemma_array_view,
    lemma_object_view, lemma_view_str, number_as_f64, number_as_f64_bits, Json, JsonValue,
};
use crate::text::{chars_contain, chars_equal, chars_less, is_substring, seq_lt, str_is, to_chars};
use crate::topic::{split_dots, segments_view, split_segments};

verus! {

/// Safety limits for condition evaluation.
#[derive(Clone, Copy, Debug)]
pub struct ConditionLimits {
    /// Paths with more segments than this find nothing.
    pub max_path_depth: usize,
    /// Conditions with more operators than this do not hold.
    pub max_operators: usize,
    /// `$contains` fails on strings longer than this many bytes.
    pub max_string_length: usize,
}

impl ConditionLimits {
    /// Path depth 10, 20 operators, strings of 10 000 bytes.
    pub fn new() -> (r: Self)
        ensures
            r.max_path_depth == 10,
            r.max_operators == 20,
            r.max_string_length == 10_000,
    {
        ConditionLimits { max_path_depth: 10, max_operators: 20, max_string_length: 10_000 }
    }
}

impl Default for ConditionLimits {
    fn default() -> (r: Self)
        ensures
            r.max_path_depth == 10,
            r.max_operators == 20,
            r.max_string_length == 10_000,
    {
        ConditionLimits::new()
    }
}

/// The value under `key` in an object's entries (the first entry with it).
pub open spec fn entries_get(es: Seq<(Seq<char>, Json)>, key: Seq<char>) -> Option<Json>
    decreases es.len(),
{
    if es.len() == 0 {
        None
    } else if es[0].0 == key {
        Some(es[0].1)
    } else {
        entries_get(es.drop_first(), key)
    }
}

/// Reading a key gives the value of its first entry, the one that object
/// equality compares.
pub proof fn law_get_reads_first_entry(es: Seq<(Seq<char>, Json)>, key: Seq<char>)
    ensures
        entries_get(es, key) == if first_index(es, key) >= 0 {
            Some(es[first_index(es, key)].1)
        } else {
            None::<Json>
        },
    decreases es.len(),
{
    if es.len() > 0 && es[0].0 != key {
        let t = es.drop_first();
        law_get_reads_first_entry(t, key);
        lemma_first_index_range(t, key);
        if first_index(t, key) >= 0 {
            assert(t[first_index(t, key)] == es[first_index(t, key) + 1]);
        }
    }
}

/// `Value::get(key)`: a member of an object, nothing for other values.
pub open spec fn json_get(v: Json, key: Seq<char>) -> Option<Json> {
    match v {
        Json::Object(es) => entries_get(es, key),
        _ => None,
    }
}

/// Follows a list of keys from a value.
pub open spec fn follow_path(v: Json, segs: Seq<Seq<char>>) -> Option<Json>
    decreases segs.len(),
{
    if segs.len() == 0 {
        Some(v)
    } else {
        match json_get(v, segs[0]) {
            Some(w) => follow_path(w, segs.drop_first()),
            None => None,
        }
    }
}

/// The value at a dotted path, or nothing when the path has more than
/// `max_depth` segments.
pub open spec fn path_lookup(data: Json, path: Seq<char>, max_depth: nat) -> Option<Json> {
    if split_dots(path).len() > max_depth {
        None
    } else {
        follow_path(data, split_dots(path))
    }
}

/// `value > other` as the engine compares: numbers as doubles, strings
/// lexicographically, nothing else.
pub open spec fn json_gt(a: Json, b: Json) -> bool {
    match (a, b) {
        (Json::Number(x), Json::Number(y)) => match (number_as_f64_bits(x), number_as_f64_bits(y)) {
            (Some(p), Some(q)) => f64_key(p) > f64_key(q),
            _ => false,
        },
        (Json::Str(s), Json::Str(t)) => seq_lt(t, s),
        _ => false,
    }
}

/// `value < other` as the engine compares.
pub open spec fn json_lt(a: Json, b: Json) -> bool {
    json_gt(b, a)
}

/// The UTF-8 length of a string.
pub open spec fn utf8_len(s: Seq<char>) -> nat {
    encode_utf8(s).len()
}

pub open spec fn op_eq() -> Seq<char> { seq!['$', 'e', 'q'] }
pub open spec fn op_ne() -> Seq<char> { seq!['$', 'n', 'e'] }
pub open spec fn op_gt() -> Seq<char> { seq!['$', 'g', 't'] }
pub open spec fn op_gte() -> Seq<char> { seq!['$', 'g', 't', 'e'] }
pub open spec fn op_lt() -> Seq<char> { seq!['$', 'l', 't'] }
pub open spec fn op_lte() -> Seq<char> { seq!['$', 'l', 't', 'e'] }
pub open spec fn op_in() -> Seq<char> { seq!['$', 'i', 'n'] }
pub open spec fn op_contains() -> Seq<char> { seq!['$', 'c', 'o', 'n', 't', 'a', 'i', 'n', 's'] }

proof fn lemma_in_witness(value: Json, xs: Seq<Json>, i: int)
    requires
        0 <= i < xs.len(),
        json_eq(xs[i], value),
    ensures
        in_holds(value, Json::Array(xs)),
{
    let a = Json::Array(xs);
    assert(a->Array_0 == xs);
    assert(a->Array_0[i] == xs[i]);
    assert(json_eq(a->Array_0[i], value));
}

/// `$in`: the value is an element of the expected array.
pub open spec fn in_holds(value: Json, expected: Json) -> bool {
    match expected {
        Json::Array(xs) => exists|i: int| 0 <= i < xs.len() && json_eq(#[trigger] xs[i], value),
        _ => false,
    }
}

/// `$contains`: both are strings within the length limit and the expected
/// string occurs in the value.
pub open spec fn contains_holds(value: Json, expected: Json, max_len: nat) -> bool {
    match (value, expected) {
        (Json::Str(s), Json::Str(p)) => utf8_len(s) <= max_len && utf8_len(p) <= max_len && is_substring(p, s),
        _ => false,
    }
}

/// The operators a condition knows.
#[derive(PartialEq, Eq, Structural, Clone, Copy, Debug)]
pub enum OpKind {
    Eq,
    Ne,
    Gt,
    Gte,
    Lt,
    Lte,
    In,
    Contains,
    Unknown,
}

/// Which operator a name stands for.
pub open spec fn op_kind(op: Seq<char>) -> OpKind {
    if op == op_eq() {
        OpKind::Eq
    } else if op == op_ne() {
        OpKind::Ne
    } else if op == op_gt() {
        OpKind::Gt
    } else if op == op_gte() {
        OpKind::Gte
    } else if op == op_lt() {
        OpKind::Lt
    } else if op == op_lte() {
        OpKind::Lte
    } else if op == op_in() {
        OpKind::In
    } else if op == op_contains() {
        OpKind::Contains
    } else {
        OpKind::Unknown
    }
}

/// Whether one operator holds of a value. Unknown operators hold.
pub open spec fn op_holds(value: Json, op: Seq<char>, expected: Json, max_len: nat) -> bool {
    match op_kind(op) {
        OpKind::Eq => json_eq(value, expected),
        OpKind::Ne => !json_eq(value, expected),
        OpKind::Gt => json_gt(value, expected),
        OpKind::Gte => json_eq(value, expected) || json_gt(value, expected),
        OpKind::Lt => json_lt(value, expected),
        OpKind::Lte => json_eq(value, expected) || json_lt(value, expected),
        OpKind::In => in_holds(value, expected),
        OpKind::Contains => contains_holds(value, expected, max_len),
        OpKind::Unknown => true,
    }
}

/// Whether an operator object (or a value to compare with) holds of a value.
pub open spec fn ops_hold(value: Json, ops: Json, max_len: nat) -> bool {
    match ops {
        Json::Object(es) => forall|i: int| 0 <= i < es.len() ==> #[trigger] op_holds(value, es[i].0, es[i].1, max_len),
        _ => json_eq(value, ops),
    }
}

/// How many operators an operator object counts for.
pub open spec fn op_count(ops: Json) -> nat {
    match ops {
        Json::Object(es) => es.len(),
        _ => 0,
    }
}

/// The operators of all fields of a condition.
pub open spec fn total_op_count(fields: Seq<(Seq<char>, Json)>) -> nat
    decreases fields.len(),
{
    if fields.len() == 0 {
        0
    } else {
        total_op_count(fields.drop_last()) + op_count(fields.last().1)
    }
}

/// Whether one field of a condition holds of the data.
pub open spec fn field_holds(data: Json, field: (Seq<char>, Json), limits: ConditionLimits) -> bool {
    match path_lookup(data, field.0, limits.max_path_depth as nat) {
        Some(v) => ops_hold(v, field.1, limits.max_string_length as nat),
        None => false,
    }
}

/// Whether a condition holds of the data: a condition that is not an object
/// always holds.
pub open spec fn condition_holds(data: Json, condition: Json, limits: ConditionLimits) -> bool {
    match condition {
        Json::Object(fields) => total_op_count(fields) <= limits.max_operators && forall|i: int|
            0 <= i < fields.len() ==> #[trigger] field_holds(data, fields[i], limits),
        _ => true,
    }
}

proof fn lemma_entries_get_index(es: Seq<(Seq<char>, Json)>, key: Seq<char>, i: int)
    requires
        0 <= i < es.len(),
        es[i].0 == key,
        forall|j: int| 0 <= j < i ==> es[j].0 != key,
    ensures
        entries_get(es, key) == Some(es[i].1),
    decreases i,
{
    if i > 0 {
        assert forall|j: int| 0 <= j < i - 1 implies es.drop_first()[j].0 != key by {
            assert(es[j + 1].0 != key);
        }
        lemma_entries_get_index(es.drop_first(), key, i - 1);
    }
}

proof fn lemma_entries_get_none(es: Seq<(Seq<char>, Json)>, key: Seq<char>)
    requires
        forall|j: int| 0 <= j < es.len() ==> es[j].0 != key,
    ensures
        entries_get(es, key) is None,
    decreases es.len(),
{
    if es.len() > 0 {
        assert(es[0].0 != key);
        assert forall|j: int| 0 <= j < es.len() - 1 implies es.drop_first()[j].0 != key by {
            assert(es[j + 1].0 != key);
        }
        lemma_entries_get_none(es.drop_first(), key);
    }
}

/// `Value::get(key)` on a value.
fn json_get_key<'a>(v: &'a JsonValue, key: &Vec<char>) -> (r: Option<&'a JsonValue>)
    ensures
        match r {
            Some(x) => json_get(v@, key@) == Some(x@),
            None => json_get(v@, key@) is None,
        },
{
    match v {
        JsonValue::Object(es) => {
            proof {
                lemma_object_view(*es);
            }
            let ghost ev = json_view_entries(es@);
            let mut i: usize = 0;
            while i < es.len()
                invariant
                    i <= es.len(),
                    ev == json_view_entries(es@),
                    v@ == Json::Object(ev),
                    ev.len() == es@.len(),
                    forall|k: int| 0 <= k < es@.len() ==> (#[trigger] ev[k]).0 == es@[k].0@ && ev[k].1 == es@[k].1@,
                    forall|j: int| 0 <= j < i ==> ev[j].0 != key@,
                decreases es.len() - i,
            {
                let k = to_chars(es[i].0.as_str());
                if chars_equal(&k, key) {
                    proof {
                        lemma_entries_get_index(ev, key@, i as int);
                    }
                    return Some(&es[i].1);
                }
                i = i + 1;
            }
            proof {
                lemma_entries_get_none(ev, key@);
            }
            None
        },
        _ => None,
    }
}

proof fn lemma_follow_path_step(v: Json, segs: Seq<Seq<char>>, i: int)
    requires
        0 <= i < segs.len(),
    ensures
        follow_path(v, segs.take(i + 1)) == match follow_path(v, segs.take(i)) {
            Some(w) => json_get(w, segs[i]),
            None => None,
        },
    decreases i,
{
    if i > 0 {
        assert(segs.take(i + 1).drop_first() =~= segs.drop_first().take(i));
        assert(segs.take(i).drop_first() =~= segs.drop_first().take(i - 1));
        assert(segs.take(i + 1)[0] == segs[0]);
        assert(segs.take(i)[0] == segs[0]);
        assert(follow_path(v, segs.take(i + 1)) == match json_get(v, segs[0]) {
            Some(w) => follow_path(w, segs.take(i + 1).drop_first()),
            None => None,
        });
        assert(follow_path(v, segs.take(i)) == match json_get(v, segs[0]) {
            Some(w) => follow_path(w, segs.take(i).drop_first()),
            None => None,
        });
        match json_get(v, segs[0]) {
            Some(w) => {
                lemma_follow_path_step(w, segs.drop_first(), i - 1);
            },
            None => {},
        }
    } else {
        assert(segs.take(1).drop_first() =~= Seq::<Seq<char>>::empty());
        assert(segs.take(0) =~= Seq::<Seq<char>>::empty());
        assert(segs.take(1)[0] == segs[0]);
    }
}

/// The value at a dotted path, with the depth limit.
pub fn json_path_get<'a>(data: &'a JsonValue, path: &str, max_depth: usize) -> (r: Option<&'a JsonValue>)
    ensures
        match r {
            Some(x) => path_lookup(data@, path@, max_depth as nat) == Some(x@),
            None => path_lookup(data@, path@, max_depth as nat) is None,
        },
{
    let segs = split_segments(path);
    let ghost sv = segments_view(segs@);
    let mut current: &JsonValue = data;
    let mut depth: usize = 0;
    assert(sv.take(0) =~= Seq::<Seq<char>>::empty());
    while depth < segs.len()
        invariant
            sv == segments_view(segs@),
            sv == split_dots(path@),
            depth <= segs.len(),
            depth <= max_depth,
            follow_path(data@, sv.take(depth as int)) == Some(current@),
        decreases segs.len() - depth,
    {
        if depth >= max_depth {
            return None;
        }
        proof {
            lemma_follow_path_step(data@, sv, depth as int);
        }
        assert(sv[depth as int] == segs@[depth as int]@);
        match json_get_key(current, &segs[depth]) {
            Some(next) => {
                current = next;
            },
            None => {
                proof {
                    lemma_follow_path_none(data@, sv, depth as int + 1);
                }
                return None;
            },
        }
        depth = depth + 1;
    }
    assert(sv.take(sv.len() as int) =~= sv);
    Some(current)
}

proof fn lemma_follow_path_none(v: Json, segs: Seq<Seq<char>>, i: int)
    requires
        0 <= i <= segs.len(),
        follow_path(v, segs.take(i)) is None,
    ensures
        follow_path(v, segs) is None,
    decreases segs.len() - i,
{
    if i < segs.len() {
        lemma_follow_path_step(v, segs, i);
        lemma_follow_path_none(v, segs, i + 1);
    } else {
        assert(segs.take(i) =~= segs);
    }
}


/// `value > other` as the engine compares.
pub fn json_value_gt(a: &JsonValue, b: &JsonValue) -> (r: bool)
    ensures
        r == json_gt(a@, b@),
        (match (a@, b@) {
            (Json::Number(x), Json::Number(y)) => exact_int(x) && exact_int(y) ==> r == (int_of(x) > int_of(y)),
            _ => true,
        }),
{
    match (a, b) {
        (JsonValue::Number(x), JsonValue::Number(y)) => {
            match (number_as_f64(*x), number_as_f64(*y)) {
                (Some(p), Some(q)) => f64_bits_gt(p, q),
                _ => false,
            }
        },
        (JsonValue::String(s), JsonValue::String(t)) => {
            let sc = to_chars(s.as_str());
            let tc = to_chars(t.as_str());
            chars_less(&tc, &sc)
        },
        _ => false,
    }
}

/// `value < other` as the engine compares.
pub fn json_value_lt(a: &JsonValue, b: &JsonValue) -> (r: bool)
    ensures
        r == json_lt(a@, b@),
        (match (a@, b@) {
            (Json::Number(x), Json::Number(y)) => exact_int(x) && exact_int(y) ==> r == (int_of(x) < int_of(y)),
            _ => true,
        }),
{
    json_value_gt(b, a)
}

/// Whether `value` is an element of the array `expected`.
fn json_in(value: &JsonValue, expected: &JsonValue) -> (r: bool)
    ensures
        r == in_holds(value@, expected@),
{
    match expected {
        JsonValue::Array(xs) => {
            proof {
                lemma_array_view(*xs);
            }
            let ghost xv = json_view_seq(xs@);
            let mut i: usize = 0;
            while i < xs.len()
                invariant
                    i <= xs.len(),
                    xv == json_view_seq(xs@),
                    expected@ == Json::Array(xv),
                    xv.len() == xs@.len(),
                    forall|k: int| 0 <= k < xs@.len() ==> #[trigger] xv[k] == xs@[k]@,
                    forall|k: int| 0 <= k < i ==> !json_eq(#[trigger] xv[k], value@),
                decreases xs.len() - i,
            {
                if json_equal(&xs[i], value) {
                    proof {
                        lemma_in_witness(value@, xv, i as int);
                    }
                    return true;
                }
                i = i + 1;
            }
            false
        },
        _ => false,
    }
}

/// Which operator a name stands for.
fn classify_op(op: &str) -> (k: OpKind)
    ensures
        k == op_kind(op@),
{
    assert(['$', 'e', 'q']@ =~= op_eq());
    assert(['$', 'n', 'e']@ =~= op_ne());
    assert(['$', 'g', 't']@ =~= op_gt());
    assert(['$', 'g', 't', 'e']@ =~= op_gte());
    assert(['$', 'l', 't']@ =~= op_lt());
    assert(['$', 'l', 't', 'e']@ =~= op_lte());
    assert(['$', 'i', 'n']@ =~= op_in());
    assert(['$', 'c', 'o', 'n', 't', 'a', 'i', 'n', 's']@ =~= op_contains());
    if str_is(op, &['$', 'e', 'q']) {
        OpKind::Eq
    } else if str_is(op, &['$', 'n', 'e']) {
        OpKind::Ne
    } else if str_is(op, &['$', 'g', 't']) {
        OpKind::Gt
    } else if str_is(op, &['$', 'g', 't', 'e']) {
        OpKind::Gte
    } else if str_is(op, &['$', 'l', 't']) {
        OpKind::Lt
    } else if str_is(op, &['$', 'l', 't', 'e']) {
        OpKind::Lte
    } else if str_is(op, &['$', 'i', 'n']) {
        OpKind::In
    } else if str_is(op, &['$', 'c', 'o', 'n', 't', 'a', 'i', 'n', 's']) {
        OpKind::Contains
    } else {
        OpKind::Unknown
    }
}

/// `$contains` of a value.
fn json_contains(value: &JsonValue, expected: &JsonValue, max_string_length: usize) -> (r: bool)
    ensures
        r == contains_holds(value@, expected@, max_string_length as nat),
{
    proof {
        lemma_view_str(*value);
        lemma_view_str(*expected);
    }
    match (value, expected) {
        (JsonValue::String(s), JsonValue::String(p)) => {
            assert(value@ == Json::Str(s@));
            assert(expected@ == Json::Str(p@));
            if s.as_str().as_bytes().len() > max_string_length || p.as_str().as_bytes().len() > max_string_length {
                return false;
            }
            let sc = to_chars(s.as_str());
            let pc = to_chars(p.as_str());
            chars_contain(&sc, &pc)
        },
        _ => false,
    }
}

/// Whether one operator holds of a value.
fn op_holds_exec(value: &JsonValue, op: &String, expected: &JsonValue, max_string_length: usize) -> (r: bool)
    ensures
        r == op_holds(value@, op@, expected@, max_string_length as nat),
{
    match classify_op(op.as_str()) {
        OpKind::Eq => json_equal(value, expected),
        OpKind::Ne => !json_equal(value, expected),
        OpKind::Gt => json_value_gt(value, expected),
        OpKind::Gte => json_equal(value, expected) || json_value_gt(value, expected),
        OpKind::Lt => json_value_lt(value, expected),
        OpKind::Lte => json_equal(value, expected) || json_value_lt(value, expected),
        OpKind::In => json_in(value, expected),
        OpKind::Contains => json_contains(value, expected, max_string_length),
        OpKind::Unknown => true,
    }
}

/// How many operators of an operator object are examined, from the `k`-th on,
/// when the count starts at `start`: each operator counts as it is reached,
/// and the first that goes past `max` or does not hold is the last examined.
pub open spec fn examined_from(
    value: Json,
    es: Seq<(Seq<char>, Json)>,
    max_len: nat,
    start: int,
    max: int,
    k: int,
) -> int
    decreases es.len() - k,
{
    if k < 0 || k >= es.len() {
        es.len() as int
    } else if start + k + 1 > max || !op_holds(value, es[k].0, es[k].1, max_len) {
        k + 1
    } else {
        examined_from(value, es, max_len, start, max, k + 1)
    }
}

/// How many operators of `ops` are examined: none unless it is an object.
pub open spec fn ops_examined(value: Json, ops: Json, max_len: nat, start: int, max: int) -> int {
    match ops {
        Json::Object(es) => examined_from(value, es, max_len, start, max, 0),
        _ => 0,
    }
}

proof fn lemma_examined_bounds(value: Json, es: Seq<(Seq<char>, Json)>, max_len: nat, start: int, max: int, k: int)
    requires
        0 <= k <= es.len(),
    ensures
        k < es.len() ==> k + 1 <= examined_from(value, es, max_len, start, max, k),
        examined_from(value, es, max_len, start, max, k) <= es.len(),
    decreases es.len() - k,
{
    if k < es.len() {
        lemma_examined_bounds(value, es, max_len, start, max, k + 1);
    }
}

/// Checks an operator object (or a value to compare with) against a value,
/// counting each operator it reaches; going past `max_operators` fails.
fn match_operators(
    value: &JsonValue,
    ops: &JsonValue,
    operator_count: &mut usize,
    max_operators: usize,
    max_string_length: usize,
) -> (r: bool)
    requires
        *old(operator_count) + ops_examined(value@, ops@, max_string_length as nat, *old(operator_count) as int, max_operators as int)
            <= usize::MAX,
    ensures
        r == (ops_hold(value@, ops@, max_string_length as nat) && (op_count(ops@) == 0 || *old(operator_count)
            + op_count(ops@) <= max_operators)),
        *final(operator_count) == *old(operator_count) + ops_examined(
            value@,
            ops@,
            max_string_length as nat,
            *old(operator_count) as int,
            max_operators as int,
        ),
        r ==> *final(operator_count) == *old(operator_count) + op_count(ops@),
{
    match ops {
        JsonValue::Object(es) => {
            proof {
                lemma_object_view(*es);
            }
            let ghost ev = json_view_entries(es@);
            let ghost start = *operator_count as int;
            let ghost ml = max_string_length as nat;
            let ghost mx = max_operators as int;
            let mut i: usize = 0;
            while i < es.len()
                invariant
                    i <= es.len(),
                    ev == json_view_entries(es@),
                    ops@ == Json::Object(ev),
                    ev.len() == es@.len(),
                    forall|k: int| 0 <= k < es@.len() ==> (#[trigger] ev[k]).0 == es@[k].0@ && ev[k].1 == es@[k].1@,
                    start == *old(operator_count),
                    ml == max_string_length as nat,
                    mx == max_operators as int,
                    *operator_count == start + i,
                    start + examined_from(value@, ev, ml, start, mx, 0) <= usize::MAX,
                    examined_from(value@, ev, ml, start, mx, 0) == examined_from(value@, ev, ml, start, mx, i as int),
                    forall|k: int| 0 <= k < i ==> start + k + 1 <= mx && #[trigger] op_holds(value@, ev[k].0, ev[k].1, ml),
                decreases es.len() - i,
            {
                proof {
                    lemma_examined_bounds(value@, ev, ml, start, mx, i as int);
                }
                *operator_count = *operator_count + 1;
                if *operator_count > max_operators {
                    return false;
                }
                if !op_holds_exec(value, &es[i].0, &es[i].1, max_string_length) {
                    assert(!op_holds(value@, ev[i as int].0, ev[i as int].1, ml));
                    return false;
                }
                i = i + 1;
            }
            proof {
                assert forall|k: int| 0 <= k < ev.len() implies #[trigger] op_holds(value@, ev[k].0, ev[k].1, ml) by {
                }
                if ev.len() > 0 {
                    let last = ev.len() - 1;
                    assert(op_holds(value@, ev[last].0, ev[last].1, ml));
                    assert(start + last + 1 <= mx);
                }
            }
            true
        },
        _ => json_equal(value, ops),
    }
}

proof fn lemma_ops_examined_le_count(value: Json, ops: Json, max_len: nat, start: int, max: int)
    ensures
        0 <= ops_examined(value, ops, max_len, start, max) <= op_count(ops),
{
    match ops {
        Json::Object(es) => {
            lemma_examined_bounds(value, es, max_len, start, max, 0);
        },
        _ => {},
    }
}

proof fn lemma_total_op_count_step(fields: Seq<(Seq<char>, Json)>, i: int)
    requires
        0 <= i < fields.len(),
    ensures
        total_op_count(fields.take(i + 1)) == total_op_count(fields.take(i)) + op_count(fields[i].1),
{
    assert(fields.take(i + 1).drop_last() =~= fields.take(i));
}

proof fn lemma_total_op_count_mono(fields: Seq<(Seq<char>, Json)>, i: int, j: int)
    requires
        0 <= i <= j <= fields.len(),
    ensures
        total_op_count(fields.take(i)) <= total_op_count(fields.take(j)),
    decreases j - i,
{
    if i < j {
        lemma_total_op_count_step(fields, j - 1);
        lemma_total_op_count_mono(fields, i, j - 1);
    }
}

/// Whether a condition holds of an event payload, within the limits.
pub fn matches_condition(data: &JsonValue, condition: &JsonValue, limits: &ConditionLimits) -> (r: bool)
    ensures
        r == condition_holds(data@, condition@, *limits),
{
    match condition {
        JsonValue::Object(fields) => {
            proof {
                lemma_object_view(*fields);
            }
            let ghost fv = json_view_entries(fields@);
            let mut operator_count: usize = 0;
            let mut i: usize = 0;
            assert(fv.take(0) =~= Seq::<(Seq<char>, Json)>::empty());
            while i < fields.len()
                invariant
                    i <= fields.len(),
                    fv == json_view_entries(fields@),
                    condition@ == Json::Object(fv),
                    fv.len() == fields@.len(),
                    forall|k: int| 0 <= k < fields@.len() ==> (#[trigger] fv[k]).0 == fields@[k].0@ && fv[k].1 == fields@[k].1@,
                    operator_count == total_op_count(fv.take(i as int)),
                    operator_count <= limits.max_operators,
                    forall|k: int| 0 <= k < i ==> #[trigger] field_holds(data@, fv[k], *limits),
                decreases fields.len() - i,
            {
                proof {
                    lemma_total_op_count_step(fv, i as int);
                    lemma_total_op_count_mono(fv, i + 1, fv.len() as int);
                    assert(fv.take(fv.len() as int) =~= fv);
                }
                let value = json_path_get(data, fields[i].0.as_str(), limits.max_path_depth);
                match value {
                    None => {
                        assert(!field_holds(data@, fv[i as int], *limits));
                        return false;
                    },
                    Some(v) => {
                        let ops_len: usize = match &fields[i].1 {
                            JsonValue::Object(es) => {
                                proof {
                                    lemma_object_view(*es);
                                }
                                es.len()
                            },
                            _ => 0,
                        };
                        assert(ops_len == op_count(fv[i as int].1));
                        proof {
                            lemma_ops_examined_le_count(v@, fv[i as int].1, limits.max_string_length as nat,
                                operator_count as int, limits.max_operators as int);
                        }
                        if operator_count > usize::MAX - ops_len {
                            assert(total_op_count(fv.take(i + 1)) > limits.max_operators);
                            return false;
                        }
                        if !match_operators(
                            v,
                            &fields[i].1,
                            &mut operator_count,
                            limits.max_operators,
                            limits.max_string_length,
                        ) {
                            assert(!field_holds(data@, fv[i as int], *limits)
                                || total_op_count(fv) > limits.max_operators);
                            return false;
                        }
                        assert(field_holds(data@, fv[i as int], *limits));
                    },
                }
                i = i + 1;
            }
            assert(fv.take(fv.len() as int) =~= fv);
            true
        },
        _ => true,
    }
}


/// `$ne` is the negation of `$eq`: it fails exactly on values equal to the
/// expected one, whatever their kind (booleans, null, arrays and objects
/// included), and no limit changes that.
pub proof fn law_ne_negates_eq(value: Json, expected: Json, max_len: nat)
    ensures
        op_holds(value, op_ne(), expected, max_len) == !json_eq(value, expected),
        op_holds(value, op_ne(), expected, max_len) == !op_holds(value, op_eq(), expected, max_len),
{
    assert(op_ne() != op_eq()) by {
        assert(op_ne()[1] != op_eq()[1]);
    }
}


/// The order operators agree with one another: `v $lt e` is `e $gt v`, and
/// `$gte` and `$lte` are the strict comparison or `$eq`.
pub proof fn law_order_operators(value: Json, expected: Json, max_len: nat)
    ensures
        op_holds(value, op_lt(), expected, max_len) == op_holds(expected, op_gt(), value, max_len),
        op_holds(value, op_gte(), expected, max_len) == (op_holds(value, op_gt(), expected, max_len) || op_holds(
            value,
            op_eq(),
            expected,
            max_len,
        )),
        op_holds(value, op_lte(), expected, max_len) == (op_holds(value, op_lt(), expected, max_len) || op_holds(
            value,
            op_eq(),
            expected,
            max_len,
        )),
{
    assert(op_gt() != op_eq()) by {
        assert(op_gt()[1] != op_eq()[1]);
    }
    assert(op_lt() != op_eq() && op_lt() != op_ne() && op_lt() != op_gt() && op_lt() != op_gte()) by {
        assert(op_lt()[1] != op_eq()[1]);
        assert(op_lt()[1] != op_ne()[1]);
        assert(op_lt()[1] != op_gt()[1]);
        assert(op_lt()[1] != op_gte()[1]);
    }
    assert(op_gte() != op_eq() && op_gte() != op_ne() && op_gte() != op_gt()) by {
        assert(op_gte()[1] != op_eq()[1]);
        assert(op_gte()[1] != op_ne()[1]);
        assert(op_gte().len() != op_gt().len());
    }
    assert(op_lte() != op_eq() && op_lte() != op_ne() && op_lte() != op_gt() && op_lte() != op_gte() && op_lte()
        != op_lt()) by {
        assert(op_lte()[1] != op_eq()[1]);
        assert(op_lte()[1] != op_ne()[1]);
        assert(op_lte()[1] != op_gt()[1]);
        assert(op_lte()[1] != op_gte()[1]);
        assert(op_lte().len() != op_lt().len());
    }
    assert(op_gt() != op_ne()) by {
        assert(op_gt()[1] != op_ne()[1]);
    }
}

} // verus!
