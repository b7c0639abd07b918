//! Reading model states and steps out of the values of an ITF trace.
//!
//! A trace written by the TLA+ tools holds each state as a tree of values: records of named
//! fields, function maps, sequences, sets, numbers written plainly or as big-integer numerals,
//! booleans and strings. This module reads such trees into comparable model states and model
//! steps, and says exactly which tree gives which state or which error.
use std::collections::{BTreeMap, BTreeSet};
use vstd::prelude::*;

use super::comparable::{
    ComparableCleanRecord, ComparableDirtyRecord, ComparableDurableValue, ComparableState,
    ComparableStateView, ComparableVisibleRef,
};
use super::state::{CacheId, KeyId, ModelStep, WriteId};

verus! {

broadcast use vstd::laws_cmp::group_laws_cmp, vstd::std_specs::btree::group_btree_axioms;

/// A value of an ITF trace.
#[derive(Debug, PartialEq, Eq)]
pub enum TraceValue {
    Bool(bool),
    Number(i64),
    String(String),
    /// A big-integer numeral, as its decimal digits (with a leading `-` when negative).
    BigInt(String),
    List(TraceValues),
    Tuple(TraceValues),
    SetOf(TraceValues),
    /// A function map, as its key-value pairs.
    FunctionMap(TracePairs),
    /// A record, as its named fields.
    Record(TraceFields),
    Unserializable(String),
}

/// The elements of a list, tuple or set, in order.
#[derive(Debug, PartialEq, Eq)]
pub enum TraceValues {
    Empty,
    Cons(Box<TraceValue>, Box<TraceValues>),
}

/// The key-value pairs of a function map, in order.
#[derive(Debug, PartialEq, Eq)]
pub enum TracePairs {
    Empty,
    Cons(Box<TraceValue>, Box<TraceValue>, Box<TracePairs>),
}

/// The named fields of a record, in order.
#[derive(Debug, PartialEq, Eq)]
pub enum TraceFields {
    Empty,
    Cons(String, Box<TraceValue>, Box<TraceFields>),
}

/// The shape a reader expected where it found another.
#[derive(Clone, Copy, Debug, PartialEq, Eq, Structural)]
pub enum Expectation {
    Record,
    NonNegativeNumber,
    Bool,
    String,
    Sequence,
    SetOfValues,
    FunctionMap,
}

/// Why a numeral does not read as an index.
#[derive(Clone, Copy, Debug, PartialEq, Eq, Structural)]
pub enum NumeralError {
    /// Nothing to read.
    Empty,
    /// A character other than a decimal digit (after an optional leading `+`).
    InvalidDigit,
    /// More than an index can hold.
    PosOverflow,
}

/// Why a value does not read as what was asked of it.
#[derive(Debug, PartialEq, Eq)]
pub enum TraceError {
    /// A record lacks the named field.
    MissingField(&'static str),
    /// A value of another shape than expected.
    Expected(Expectation, TraceValue),
    /// A numeral that does not read as an index.
    BadNumeral(NumeralError),
    /// A visible-ref kind other than `None`, `Dirty` and `Clean`.
    UnknownVisibleKind(String),
    /// A step whose action the model does not know.
    UnknownAction(String),
}

/// A copy of `v`.
pub fn copy_value(v: &TraceValue) -> (r: TraceValue)
    ensures
        r == *v,
    decreases *v,
{
    match v {
        TraceValue::Bool(b) => TraceValue::Bool(*b),
        TraceValue::Number(n) => TraceValue::Number(*n),
        TraceValue::String(s) => TraceValue::String(s.clone()),
        TraceValue::BigInt(s) => TraceValue::BigInt(s.clone()),
        TraceValue::List(items) => TraceValue::List(copy_values(items)),
        TraceValue::Tuple(items) => TraceValue::Tuple(copy_values(items)),
        TraceValue::SetOf(items) => TraceValue::SetOf(copy_values(items)),
        TraceValue::FunctionMap(pairs) => TraceValue::FunctionMap(copy_pairs(pairs)),
        TraceValue::Record(fields) => TraceValue::Record(copy_fields(fields)),
        TraceValue::Unserializable(s) => TraceValue::Unserializable(s.clone()),
    }
}

/// A copy of `items`.
pub fn copy_values(items: &TraceValues) -> (r: TraceValues)
    ensures
        r == *items,
    decreases *items,
{
    match items {
        TraceValues::Empty => TraceValues::Empty,
        TraceValues::Cons(head, tail) => TraceValues::Cons(
            Box::new(copy_value(head)),
            Box::new(copy_values(tail)),
        ),
    }
}

/// A copy of `pairs`.
pub fn copy_pairs(pairs: &TracePairs) -> (r: TracePairs)
    ensures
        r == *pairs,
    decreases *pairs,
{
    match pairs {
        TracePairs::Empty => TracePairs::Empty,
        TracePairs::Cons(k, v, tail) => TracePairs::Cons(
            Box::new(copy_value(k)),
            Box::new(copy_value(v)),
            Box::new(copy_pairs(tail)),
        ),
    }
}

/// A copy of `fields`.
pub fn copy_fields(fields: &TraceFields) -> (r: TraceFields)
    ensures
        r == *fields,
    decreases *fields,
{
    match fields {
        TraceFields::Empty => TraceFields::Empty,
        TraceFields::Cons(name, v, tail) => TraceFields::Cons(
            name.clone(),
            Box::new(copy_value(v)),
            Box::new(copy_fields(tail)),
        ),
    }
}

/// The elements of `items`, in order.
pub open spec fn values_seq(items: TraceValues) -> Seq<TraceValue>
    decreases items,
{
    match items {
        TraceValues::Empty => Seq::empty(),
        TraceValues::Cons(head, tail) => seq![*head] + values_seq(*tail),
    }
}

/// The list of the elements of `v`, in order.
pub fn values_from_vec(v: Vec<TraceValue>) -> (r: TraceValues)
    ensures
        values_seq(r) == v@,
{
    let ghost v0 = v@;
    let mut v = v;
    let mut r = TraceValues::Empty;
    while v.len() > 0
        invariant
            v@ + values_seq(r) == v0,
        decreases v@.len(),
    {
        let ghost before = v@;
        let x = v.pop().unwrap();
        let ghost rest = values_seq(r);
        r = TraceValues::Cons(Box::new(x), Box::new(r));
        assert(v@ + values_seq(r) =~= v0) by {
            assert(values_seq(r) == seq![x] + rest);
            assert(before == v@.push(x));
        }
    }
    assert(values_seq(r) =~= v0);
    r
}

/// The pairs of `pairs`, in order.
pub open spec fn pairs_seq(pairs: TracePairs) -> Seq<(TraceValue, TraceValue)>
    decreases pairs,
{
    match pairs {
        TracePairs::Empty => Seq::empty(),
        TracePairs::Cons(k, v, tail) => seq![(*k, *v)] + pairs_seq(*tail),
    }
}

/// The list of the pairs of `v`, in order.
pub fn pairs_from_vec(v: Vec<(TraceValue, TraceValue)>) -> (r: TracePairs)
    ensures
        pairs_seq(r) == v@,
{
    let ghost v0 = v@;
    let mut v = v;
    let mut r = TracePairs::Empty;
    while v.len() > 0
        invariant
            v@ + pairs_seq(r) == v0,
        decreases v@.len(),
    {
        let ghost before = v@;
        let (k, x) = v.pop().unwrap();
        let ghost rest = pairs_seq(r);
        r = TracePairs::Cons(Box::new(k), Box::new(x), Box::new(r));
        assert(v@ + pairs_seq(r) =~= v0) by {
            assert(pairs_seq(r) == seq![(k, x)] + rest);
            assert(before == v@.push((k, x)));
        }
    }
    assert(pairs_seq(r) =~= v0);
    r
}

/// The fields of `fields`, in order.
pub open spec fn fields_seq(fields: TraceFields) -> Seq<(String, TraceValue)>
    decreases fields,
{
    match fields {
        TraceFields::Empty => Seq::empty(),
        TraceFields::Cons(name, v, tail) => seq![(name, *v)] + fields_seq(*tail),
    }
}

/// The list of the fields of `v`, in order.
pub fn fields_from_vec(v: Vec<(String, TraceValue)>) -> (r: TraceFields)
    ensures
        fields_seq(r) == v@,
{
    let ghost v0 = v@;
    let mut v = v;
    let mut r = TraceFields::Empty;
    while v.len() > 0
        invariant
            v@ + fields_seq(r) == v0,
        decreases v@.len(),
    {
        let ghost before = v@;
        let (name, x) = v.pop().unwrap();
        let ghost rest = fields_seq(r);
        r = TraceFields::Cons(name, Box::new(x), Box::new(r));
        assert(v@ + fields_seq(r) =~= v0) by {
            assert(before == v@.push((name, x)));
        }
    }
    assert(fields_seq(r) =~= v0);
    r
}

/// The value of the first field of `fields` named `name`.
pub open spec fn record_field(fields: TraceFields, name: Seq<char>) -> Option<TraceValue>
    decreases fields,
{
    match fields {
        TraceFields::Empty => None,
        TraceFields::Cons(n, v, tail) => if n@ == name {
            Some(*v)
        } else {
            record_field(*tail, name)
        },
    }
}

/// The fields of `v`, when it is a record.
pub open spec fn spec_expect_record(v: TraceValue) -> Result<TraceFields, TraceError> {
    match v {
        TraceValue::Record(fields) => Ok(fields),
        _ => Err(TraceError::Expected(Expectation::Record, v)),
    }
}

/// The field `name` of the record `v`.
pub open spec fn spec_field(v: TraceValue, name: &'static str) -> Result<TraceValue, TraceError> {
    match spec_expect_record(v) {
        Ok(fields) => match record_field(fields, name@) {
            Some(f) => Ok(f),
            None => Err(TraceError::MissingField(name)),
        },
        Err(e) => Err(e),
    }
}

/// The fields of `v`, when it is a record.
pub fn expect_record(v: &TraceValue) -> (r: Result<&TraceFields, TraceError>)
    ensures
        match spec_expect_record(*v) {
            Ok(fields) => r matches Ok(f) && *f == fields,
            Err(e) => r matches Err(x) && x == e,
        },
{
    match v {
        TraceValue::Record(fields) => Ok(fields),
        _ => Err(TraceError::Expected(Expectation::Record, copy_value(v))),
    }
}

/// The first field of `fields` whose name is `wanted`.
fn record_get<'a>(fields: &'a TraceFields, wanted: &String) -> (r: Option<&'a TraceValue>)
    ensures
        match record_field(*fields, wanted@) {
            Some(f) => r matches Some(x) && *x == f,
            None => r is None,
        },
    decreases *fields,
{
    match fields {
        TraceFields::Empty => None,
        TraceFields::Cons(name, v, tail) => if *name == *wanted {
            Some(&**v)
        } else {
            record_get(tail, wanted)
        },
    }
}

/// The field `name` of the record `v`.
pub fn field<'a>(v: &'a TraceValue, name: &'static str) -> (r: Result<&'a TraceValue, TraceError>)
    ensures
        match spec_field(*v, name) {
            Ok(f) => r matches Ok(x) && *x == f,
            Err(e) => r matches Err(x) && x == e,
        },
{
    let fields = match expect_record(v) {
        Ok(fields) => fields,
        Err(e) => return Err(e),
    };
    let wanted = name.to_owned();
    match record_get(fields, &wanted) {
        Some(f) => Ok(f),
        None => Err(TraceError::MissingField(name)),
    }
}

/// Whether `c` is a decimal digit.
pub open spec fn is_digit(c: char) -> bool {
    '0' <= c <= '9'
}

/// The value of the decimal digit `c`.
pub open spec fn digit_value(c: char) -> nat {
    (c as int - '0' as int) as nat
}

/// Reading decimal digits left to right: the first character that is not a digit, or the first
/// digit that takes the value past the largest index, stops the reading.
pub open spec fn digits_value(d: Seq<char>) -> Result<usize, NumeralError>
    decreases d.len(),
{
    if d.len() == 0 {
        Ok(0)
    } else {
        match digits_value(d.drop_last()) {
            Err(e) => Err(e),
            Ok(acc) => if !is_digit(d.last()) {
                Err(NumeralError::InvalidDigit)
            } else if acc * 10 + digit_value(d.last()) > usize::MAX {
                Err(NumeralError::PosOverflow)
            } else {
                Ok((acc * 10 + digit_value(d.last())) as usize)
            },
        }
    }
}

/// An index written in decimal, with an optional leading `+`.
pub open spec fn numeral_value(s: Seq<char>) -> Result<usize, NumeralError> {
    if s.len() == 0 {
        Err(NumeralError::Empty)
    } else if s[0] == '+' {
        if s.len() == 1 {
            Err(NumeralError::InvalidDigit)
        } else {
            digits_value(s.drop_first())
        }
    } else {
        digits_value(s)
    }
}

/// Once a prefix of the digits fails to read, the whole fails in the same way.
proof fn lemma_digits_error_sticks(d: Seq<char>, n: int)
    requires
        0 <= n <= d.len(),
        digits_value(d.take(n)) is Err,
    ensures
        digits_value(d) == digits_value(d.take(n)),
    decreases d.len() - n,
{
    if n < d.len() {
        assert(d.take(n + 1).drop_last() =~= d.take(n));
        lemma_digits_error_sticks(d, n + 1);
    } else {
        assert(d.take(n) =~= d);
    }
}

/// Reads `s` as an index written in decimal.
pub fn parse_numeral(s: &String) -> (r: Result<usize, NumeralError>)
    ensures
        r == numeral_value(s@),
{
    let ghost all = s@;
    let mut acc: usize = 0;
    let mut first = true;
    let mut signed = false;
    let mut any_digit = false;
    for c in it: s.as_str().chars()
        invariant
            it.seq() == all,
            first ==> acc == 0 && !any_digit,
            !first ==> (any_digit <==> it.index() > (if signed {
                1int
            } else {
                0int
            })),
            all == s@,
            first == (it.index() == 0),
            signed == (it.index() > 0 && all[0] == '+'),
            !first && !signed ==> digits_value(all.take(it.index() as int)) == Ok::<usize, NumeralError>(acc),
            signed ==> digits_value(all.subrange(1, it.index() as int)) == Ok::<usize, NumeralError>(acc),
    {
        let ghost i = it.index() as int;
        if first && c == '+' {
            first = false;
            signed = true;
            proof {
                assert(all.subrange(1, 1) =~= Seq::<char>::empty());
            }
        } else {
            let ghost prefix = if signed {
                all.subrange(1, i + 1)
            } else {
                all.take(i + 1)
            };
            proof {
                if signed {
                    assert(prefix.drop_last() =~= all.subrange(1, i));
                } else {
                    assert(prefix.drop_last() =~= all.take(i));
                    if i == 0 {
                        assert(all.take(0) =~= Seq::<char>::empty());
                    }
                }
                assert(prefix.last() == c);
            }
            first = false;
            let ghost full = if signed {
                all.subrange(1, all.len() as int)
            } else {
                all
            };
            proof {
                assert(full.take(prefix.len() as int) =~= prefix);
                if signed {
                    assert(all.len() > 1);
                    assert(all.drop_first() =~= full);
                } else {
                    assert(all[0] != '+');
                }
            }
            if !('0' <= c && c <= '9') {
                proof {
                    assert(digits_value(prefix) == Err::<usize, NumeralError>(NumeralError::InvalidDigit));
                    lemma_digits_error_sticks(full, prefix.len() as int);
                }
                return Err(NumeralError::InvalidDigit);
            }
            let d = (c as u32 - '0' as u32) as usize;
            assert(d == digit_value(c) && d <= 9);
            if acc > (usize::MAX - d) / 10 {
                proof {
                    assert(acc * 10 + d > usize::MAX) by (nonlinear_arith)
                        requires
                            acc > (usize::MAX - d) / 10,
                            d <= 9,
                    ;
                    assert(digits_value(prefix) == Err::<usize, NumeralError>(NumeralError::PosOverflow));
                    lemma_digits_error_sticks(full, prefix.len() as int);
                }
                return Err(NumeralError::PosOverflow);
            }
            proof {
                assert(acc * 10 + d <= usize::MAX) by (nonlinear_arith)
                    requires
                        acc <= (usize::MAX - d) / 10,
                        d <= 9,
                ;
            }
            acc = acc * 10 + d;
            any_digit = true;
            assert(digits_value(prefix) == Ok::<usize, NumeralError>(acc));
        }
    }
    proof {
        assert(all.take(all.len() as int) =~= all);
    }
    if first {
        return Err(NumeralError::Empty);
    }
    if signed && !any_digit {
        return Err(NumeralError::InvalidDigit);
    }
    proof {
        if signed {
            assert(all.drop_first() =~= all.subrange(1, all.len() as int));
        }
    }
    Ok(acc)
}


/// What `v` reads as where an index is expected: a non-negative number, or a numeral written
/// as a big integer or as a string.
pub open spec fn spec_number(v: TraceValue) -> Result<usize, TraceError> {
    match v {
        TraceValue::Number(n) => if n >= 0 {
            Ok(n as usize)
        } else {
            Err(TraceError::Expected(Expectation::NonNegativeNumber, v))
        },
        TraceValue::BigInt(digits) => match numeral_value(digits@) {
            Ok(x) => Ok(x),
            Err(e) => Err(TraceError::BadNumeral(e)),
        },
        TraceValue::String(digits) => match numeral_value(digits@) {
            Ok(x) => Ok(x),
            Err(e) => Err(TraceError::BadNumeral(e)),
        },
        _ => Err(TraceError::Expected(Expectation::NonNegativeNumber, v)),
    }
}

/// Reads `v` as an index.
pub fn parse_number(v: &TraceValue) -> (r: Result<usize, TraceError>)
    ensures
        r == spec_number(*v),
{
    match v {
        TraceValue::Number(n) => if *n >= 0 {
            Ok(*n as usize)
        } else {
            Err(TraceError::Expected(Expectation::NonNegativeNumber, copy_value(v)))
        },
        TraceValue::BigInt(digits) => match parse_numeral(digits) {
            Ok(x) => Ok(x),
            Err(e) => Err(TraceError::BadNumeral(e)),
        },
        TraceValue::String(digits) => match parse_numeral(digits) {
            Ok(x) => Ok(x),
            Err(e) => Err(TraceError::BadNumeral(e)),
        },
        _ => Err(TraceError::Expected(Expectation::NonNegativeNumber, copy_value(v))),
    }
}

/// What `v` reads as where a boolean is expected.
pub open spec fn spec_bool(v: TraceValue) -> Result<bool, TraceError> {
    match v {
        TraceValue::Bool(b) => Ok(b),
        _ => Err(TraceError::Expected(Expectation::Bool, v)),
    }
}

/// Reads `v` as a boolean.
pub fn parse_bool(v: &TraceValue) -> (r: Result<bool, TraceError>)
    ensures
        r == spec_bool(*v),
{
    match v {
        TraceValue::Bool(b) => Ok(*b),
        _ => Err(TraceError::Expected(Expectation::Bool, copy_value(v))),
    }
}

/// What `v` reads as where a string is expected.
pub open spec fn spec_string(v: TraceValue) -> Result<String, TraceError> {
    match v {
        TraceValue::String(text) => Ok(text),
        _ => Err(TraceError::Expected(Expectation::String, v)),
    }
}

/// Reads `v` as a string.
pub fn parse_string(v: &TraceValue) -> (r: Result<String, TraceError>)
    ensures
        r == spec_string(*v),
{
    match v {
        TraceValue::String(text) => Ok(text.clone()),
        _ => Err(TraceError::Expected(Expectation::String, copy_value(v))),
    }
}

/// The field `name` of the record `v`, read as an index.
pub open spec fn spec_number_field(v: TraceValue, name: &'static str) -> Result<usize, TraceError> {
    match spec_field(v, name) {
        Ok(f) => spec_number(f),
        Err(e) => Err(e),
    }
}

/// Reads the field `name` of the record `v` as an index.
pub fn parse_id(v: &TraceValue, name: &'static str) -> (r: Result<usize, TraceError>)
    ensures
        r == spec_number_field(*v, name),
{
    match field(v, name) {
        Ok(f) => parse_number(f),
        Err(e) => Err(e),
    }
}

/// The field `name` of the record `v`, read as a boolean.
pub open spec fn spec_bool_field(v: TraceValue, name: &'static str) -> Result<bool, TraceError> {
    match spec_field(v, name) {
        Ok(f) => spec_bool(f),
        Err(e) => Err(e),
    }
}

/// Reads the field `name` of the record `v` as a boolean.
fn bool_field(v: &TraceValue, name: &'static str) -> (r: Result<bool, TraceError>)
    ensures
        r == spec_bool_field(*v, name),
{
    match field(v, name) {
        Ok(f) => parse_bool(f),
        Err(e) => Err(e),
    }
}

/// The key and value a write step picked.
pub open spec fn spec_key_value(v: TraceValue) -> Result<(usize, usize), TraceError> {
    match spec_number_field(v, "key") {
        Err(e) => Err(e),
        Ok(key) => match spec_number_field(v, "value") {
            Err(e) => Err(e),
            Ok(value) => Ok((key, value)),
        },
    }
}

/// Reads the key and value a write step picked.
pub fn parse_key_value(v: &TraceValue) -> (r: Result<(usize, usize), TraceError>)
    ensures
        r == spec_key_value(*v),
{
    let key = match parse_id(v, "key") {
        Ok(key) => key,
        Err(e) => return Err(e),
    };
    match parse_id(v, "value") {
        Ok(value) => Ok((key, value)),
        Err(e) => Err(e),
    }
}

/// Whether `text` reads `name`.
fn is_named(text: &String, name: &str) -> (r: bool)
    ensures
        r == (text@ == name@),
{
    let wanted = name.to_owned();
    *text == wanted
}

/// A visible ref as the trace writes it: a record with a `kind` of `None`, `Dirty` or `Clean`
/// and, for the last two, an `id`.
pub open spec fn spec_visible_ref(v: TraceValue) -> Result<Option<ComparableVisibleRef>, TraceError> {
    match spec_field(v, "kind") {
        Err(e) => Err(e),
        Ok(k) => match spec_string(k) {
            Err(e) => Err(e),
            Ok(kind) => if kind@ == "None"@ {
                Ok(None)
            } else if kind@ == "Dirty"@ {
                match spec_number_field(v, "id") {
                    Ok(id) => Ok(Some(ComparableVisibleRef::Dirty(id))),
                    Err(e) => Err(e),
                }
            } else if kind@ == "Clean"@ {
                match spec_number_field(v, "id") {
                    Ok(id) => Ok(Some(ComparableVisibleRef::Clean(id))),
                    Err(e) => Err(e),
                }
            } else {
                Err(TraceError::UnknownVisibleKind(kind))
            },
        },
    }
}

/// Reads a visible ref.
pub fn parse_visible_ref(v: &TraceValue) -> (r: Result<Option<ComparableVisibleRef>, TraceError>)
    ensures
        r == spec_visible_ref(*v),
{
    let kind_value = match field(v, "kind") {
        Ok(k) => k,
        Err(e) => return Err(e),
    };
    let kind = match parse_string(kind_value) {
        Ok(kind) => kind,
        Err(e) => return Err(e),
    };
    if is_named(&kind, "None") {
        Ok(None)
    } else if is_named(&kind, "Dirty") {
        match parse_id(v, "id") {
            Ok(id) => Ok(Some(ComparableVisibleRef::Dirty(id))),
            Err(e) => Err(e),
        }
    } else if is_named(&kind, "Clean") {
        match parse_id(v, "id") {
            Ok(id) => Ok(Some(ComparableVisibleRef::Clean(id))),
            Err(e) => Err(e),
        }
    } else {
        Err(TraceError::UnknownVisibleKind(kind))
    }
}

/// A write record as the trace writes it: nothing when not `present`, else its `id`, `key`
/// and `value`.
pub open spec fn spec_dirty_record(v: TraceValue) -> Result<Option<ComparableDirtyRecord>, TraceError> {
    match spec_bool_field(v, "present") {
        Err(e) => Err(e),
        Ok(present) => if !present {
            Ok(None)
        } else {
            match spec_number_field(v, "id") {
                Err(e) => Err(e),
                Ok(id) => match spec_number_field(v, "key") {
                    Err(e) => Err(e),
                    Ok(key) => match spec_number_field(v, "value") {
                        Err(e) => Err(e),
                        Ok(value) => Ok(Some(ComparableDirtyRecord { id, key, value })),
                    },
                },
            }
        },
    }
}

/// Reads a write record.
pub fn parse_dirty_record(v: &TraceValue) -> (r: Result<Option<ComparableDirtyRecord>, TraceError>)
    ensures
        r == spec_dirty_record(*v),
{
    match bool_field(v, "present") {
        Err(e) => return Err(e),
        Ok(false) => return Ok(None),
        Ok(true) => {},
    }
    let id = match parse_id(v, "id") {
        Ok(x) => x,
        Err(e) => return Err(e),
    };
    let key = match parse_id(v, "key") {
        Ok(x) => x,
        Err(e) => return Err(e),
    };
    match parse_id(v, "value") {
        Ok(value) => Ok(Some(ComparableDirtyRecord { id, key, value })),
        Err(e) => Err(e),
    }
}

/// A clean record as the trace writes it: nothing when not `present`, else its `id`, `key`
/// and `value`.
pub open spec fn spec_clean_record(v: TraceValue) -> Result<Option<ComparableCleanRecord>, TraceError> {
    match spec_bool_field(v, "present") {
        Err(e) => Err(e),
        Ok(present) => if !present {
            Ok(None)
        } else {
            match spec_number_field(v, "id") {
                Err(e) => Err(e),
                Ok(id) => match spec_number_field(v, "key") {
                    Err(e) => Err(e),
                    Ok(key) => match spec_number_field(v, "value") {
                        Err(e) => Err(e),
                        Ok(value) => Ok(Some(ComparableCleanRecord { id, key, value })),
                    },
                },
            }
        },
    }
}

/// Reads a clean record.
pub fn parse_clean_record(v: &TraceValue) -> (r: Result<Option<ComparableCleanRecord>, TraceError>)
    ensures
        r == spec_clean_record(*v),
{
    match bool_field(v, "present") {
        Err(e) => return Err(e),
        Ok(false) => return Ok(None),
        Ok(true) => {},
    }
    let id = match parse_id(v, "id") {
        Ok(x) => x,
        Err(e) => return Err(e),
    };
    let key = match parse_id(v, "key") {
        Ok(x) => x,
        Err(e) => return Err(e),
    };
    match parse_id(v, "value") {
        Ok(value) => Ok(Some(ComparableCleanRecord { id, key, value })),
        Err(e) => Err(e),
    }
}

/// The durable value of `key` as the trace writes it: nothing when not `present`, else its
/// `value` and `seq`.
pub open spec fn spec_durable_record(key: usize, v: TraceValue) -> Result<Option<ComparableDurableValue>, TraceError> {
    match spec_bool_field(v, "present") {
        Err(e) => Err(e),
        Ok(present) => if !present {
            Ok(None)
        } else {
            match spec_number_field(v, "value") {
                Err(e) => Err(e),
                Ok(value) => match spec_number_field(v, "seq") {
                    Err(e) => Err(e),
                    Ok(seq) => Ok(Some(ComparableDurableValue { key, value, seq })),
                },
            }
        },
    }
}

/// Reads the durable value of `key`.
pub fn parse_durable_record(key: usize, v: &TraceValue) -> (r: Result<Option<ComparableDurableValue>, TraceError>)
    ensures
        r == spec_durable_record(key, *v),
{
    match bool_field(v, "present") {
        Err(e) => return Err(e),
        Ok(false) => return Ok(None),
        Ok(true) => {},
    }
    let value = match parse_id(v, "value") {
        Ok(x) => x,
        Err(e) => return Err(e),
    };
    match parse_id(v, "seq") {
        Ok(seq) => Ok(Some(ComparableDurableValue { key, value, seq })),
        Err(e) => Err(e),
    }
}

/// The pairs of a function map, or of a record read as a map from its field names.
pub open spec fn spec_function_entries(v: TraceValue) -> Result<Seq<(TraceValue, TraceValue)>, TraceError> {
    match v {
        TraceValue::FunctionMap(pairs) => Ok(pairs_seq(pairs)),
        TraceValue::Record(fields) => Ok(
            fields_seq(fields).map_values(|f: (String, TraceValue)| (TraceValue::String(f.0), f.1)),
        ),
        _ => Err(TraceError::Expected(Expectation::FunctionMap, v)),
    }
}

/// The fields of `fields` as pairs keyed by their names.
fn fields_as_pairs(fields: &TraceFields) -> (r: TracePairs)
    ensures
        pairs_seq(r) == fields_seq(*fields).map_values(
            |f: (String, TraceValue)| (TraceValue::String(f.0), f.1),
        ),
    decreases *fields,
{
    match fields {
        TraceFields::Empty => {
            assert(fields_seq(*fields).map_values(
                |f: (String, TraceValue)| (TraceValue::String(f.0), f.1),
            ) =~= Seq::<(TraceValue, TraceValue)>::empty());
            TracePairs::Empty
        },
        TraceFields::Cons(name, v, tail) => {
            let rest = fields_as_pairs(tail);
            let r = TracePairs::Cons(
                Box::new(TraceValue::String(name.clone())),
                Box::new(copy_value(v)),
                Box::new(rest),
            );
            assert(pairs_seq(r) =~= fields_seq(*fields).map_values(
                |f: (String, TraceValue)| (TraceValue::String(f.0), f.1),
            ));
            r
        },
    }
}

/// Reads `v` as a function map.
fn function_entries(v: &TraceValue) -> (r: Result<TracePairs, TraceError>)
    ensures
        match spec_function_entries(*v) {
            Ok(pairs) => r matches Ok(p) && pairs_seq(p) == pairs,
            Err(e) => r matches Err(x) && x == e,
        },
{
    match v {
        TraceValue::FunctionMap(pairs) => Ok(copy_pairs(pairs)),
        TraceValue::Record(fields) => Ok(fields_as_pairs(fields)),
        _ => Err(TraceError::Expected(Expectation::FunctionMap, copy_value(v))),
    }
}

/// Folding visible refs keyed by index into `acc`, pair by pair; an absent ref adds nothing.
pub open spec fn visible_from(entries: Seq<(TraceValue, TraceValue)>, acc: Map<KeyId, ComparableVisibleRef>) -> Result<Map<KeyId, ComparableVisibleRef>, TraceError>
    decreases entries.len(),
{
    if entries.len() == 0 {
        Ok(acc)
    } else {
        match spec_number(entries[0].0) {
            Err(e) => Err(e),
            Ok(key) => match spec_visible_ref(entries[0].1) {
                Err(e) => Err(e),
                Ok(None) => visible_from(entries.drop_first(), acc),
                Ok(Some(r)) => visible_from(entries.drop_first(), acc.insert(key, r)),
            },
        }
    }
}

fn visible_into(pairs: &TracePairs, map: &mut BTreeMap<KeyId, ComparableVisibleRef>) -> (r: Result<(), TraceError>)
    ensures
        match visible_from(pairs_seq(*pairs), old(map)@) {
            Ok(m) => r is Ok && final(map)@ == m,
            Err(e) => r == Err::<(), TraceError>(e),
        },
    decreases *pairs,
{
    match pairs {
        TracePairs::Empty => Ok(()),
        TracePairs::Cons(k, v, tail) => {
            assert(pairs_seq(*pairs).drop_first() =~= pairs_seq(**tail));
            let key = match parse_number(k) {
                Ok(key) => key,
                Err(e) => return Err(e),
            };
            match parse_visible_ref(v) {
                Err(e) => return Err(e),
                Ok(None) => {},
                Ok(Some(r)) => {
                    map.insert(key, r);
                },
            }
            visible_into(tail, map)
        },
    }
}

/// Folding write records keyed by id into `acc`, pair by pair; an absent record adds nothing.
pub open spec fn dirty_from(entries: Seq<(TraceValue, TraceValue)>, acc: Map<WriteId, ComparableDirtyRecord>) -> Result<Map<WriteId, ComparableDirtyRecord>, TraceError>
    decreases entries.len(),
{
    if entries.len() == 0 {
        Ok(acc)
    } else {
        match spec_number(entries[0].0) {
            Err(e) => Err(e),
            Ok(id) => match spec_dirty_record(entries[0].1) {
                Err(e) => Err(e),
                Ok(None) => dirty_from(entries.drop_first(), acc),
                Ok(Some(r)) => dirty_from(entries.drop_first(), acc.insert(id, r)),
            },
        }
    }
}

fn dirty_into(pairs: &TracePairs, map: &mut BTreeMap<WriteId, ComparableDirtyRecord>) -> (r: Result<(), TraceError>)
    ensures
        match dirty_from(pairs_seq(*pairs), old(map)@) {
            Ok(m) => r is Ok && final(map)@ == m,
            Err(e) => r == Err::<(), TraceError>(e),
        },
    decreases *pairs,
{
    match pairs {
        TracePairs::Empty => Ok(()),
        TracePairs::Cons(k, v, tail) => {
            assert(pairs_seq(*pairs).drop_first() =~= pairs_seq(**tail));
            let id = match parse_number(k) {
                Ok(id) => id,
                Err(e) => return Err(e),
            };
            match parse_dirty_record(v) {
                Err(e) => return Err(e),
                Ok(None) => {},
                Ok(Some(r)) => {
                    map.insert(id, r);
                },
            }
            dirty_into(tail, map)
        },
    }
}

/// Folding clean records keyed by id into `acc`, pair by pair; an absent record adds nothing.
pub open spec fn clean_from(entries: Seq<(TraceValue, TraceValue)>, acc: Map<CacheId, ComparableCleanRecord>) -> Result<Map<CacheId, ComparableCleanRecord>, TraceError>
    decreases entries.len(),
{
    if entries.len() == 0 {
        Ok(acc)
    } else {
        match spec_number(entries[0].0) {
            Err(e) => Err(e),
            Ok(id) => match spec_clean_record(entries[0].1) {
                Err(e) => Err(e),
                Ok(None) => clean_from(entries.drop_first(), acc),
                Ok(Some(r)) => clean_from(entries.drop_first(), acc.insert(id, r)),
            },
        }
    }
}

fn clean_into(pairs: &TracePairs, map: &mut BTreeMap<CacheId, ComparableCleanRecord>) -> (r: Result<(), TraceError>)
    ensures
        match clean_from(pairs_seq(*pairs), old(map)@) {
            Ok(m) => r is Ok && final(map)@ == m,
            Err(e) => r == Err::<(), TraceError>(e),
        },
    decreases *pairs,
{
    match pairs {
        TracePairs::Empty => Ok(()),
        TracePairs::Cons(k, v, tail) => {
            assert(pairs_seq(*pairs).drop_first() =~= pairs_seq(**tail));
            let id = match parse_number(k) {
                Ok(id) => id,
                Err(e) => return Err(e),
            };
            match parse_clean_record(v) {
                Err(e) => return Err(e),
                Ok(None) => {},
                Ok(Some(r)) => {
                    map.insert(id, r);
                },
            }
            clean_into(tail, map)
        },
    }
}

/// Folding durable values keyed by key into `acc`, pair by pair; an absent value adds nothing.
pub open spec fn durable_from(entries: Seq<(TraceValue, TraceValue)>, acc: Map<KeyId, ComparableDurableValue>) -> Result<Map<KeyId, ComparableDurableValue>, TraceError>
    decreases entries.len(),
{
    if entries.len() == 0 {
        Ok(acc)
    } else {
        match spec_number(entries[0].0) {
            Err(e) => Err(e),
            Ok(key) => match spec_durable_record(key, entries[0].1) {
                Err(e) => Err(e),
                Ok(None) => durable_from(entries.drop_first(), acc),
                Ok(Some(r)) => durable_from(entries.drop_first(), acc.insert(key, r)),
            },
        }
    }
}

fn durable_into(pairs: &TracePairs, map: &mut BTreeMap<KeyId, ComparableDurableValue>) -> (r: Result<(), TraceError>)
    ensures
        match durable_from(pairs_seq(*pairs), old(map)@) {
            Ok(m) => r is Ok && final(map)@ == m,
            Err(e) => r == Err::<(), TraceError>(e),
        },
    decreases *pairs,
{
    match pairs {
        TracePairs::Empty => Ok(()),
        TracePairs::Cons(k, v, tail) => {
            assert(pairs_seq(*pairs).drop_first() =~= pairs_seq(**tail));
            let key = match parse_number(k) {
                Ok(key) => key,
                Err(e) => return Err(e),
            };
            match parse_durable_record(key, v) {
                Err(e) => return Err(e),
                Ok(None) => {},
                Ok(Some(r)) => {
                    map.insert(key, r);
                },
            }
            durable_into(tail, map)
        },
    }
}

/// The visible refs of a function map from keys.
pub open spec fn spec_visible(v: TraceValue) -> Result<Map<KeyId, ComparableVisibleRef>, TraceError> {
    match spec_function_entries(v) {
        Ok(entries) => visible_from(entries, Map::empty()),
        Err(e) => Err(e),
    }
}

/// Reads the visible refs of a function map from keys.
pub fn parse_visible(v: &TraceValue) -> (r: Result<BTreeMap<KeyId, ComparableVisibleRef>, TraceError>)
    ensures
        match spec_visible(*v) {
            Ok(m) => r matches Ok(x) && x@ == m,
            Err(e) => r matches Err(x) && x == e,
        },
{
    let pairs = match function_entries(v) {
        Ok(pairs) => pairs,
        Err(e) => return Err(e),
    };
    let mut map: BTreeMap<KeyId, ComparableVisibleRef> = BTreeMap::new();
    proof {
        assert(map@ =~= Map::<KeyId, ComparableVisibleRef>::empty());
    }
    match visible_into(&pairs, &mut map) {
        Ok(()) => Ok(map),
        Err(e) => Err(e),
    }
}

/// The write records of a function map from ids.
pub open spec fn spec_dirty_map(v: TraceValue) -> Result<Map<WriteId, ComparableDirtyRecord>, TraceError> {
    match spec_function_entries(v) {
        Ok(entries) => dirty_from(entries, Map::empty()),
        Err(e) => Err(e),
    }
}

/// Reads the write records of a function map from ids.
pub fn parse_dirty_map(v: &TraceValue) -> (r: Result<BTreeMap<WriteId, ComparableDirtyRecord>, TraceError>)
    ensures
        match spec_dirty_map(*v) {
            Ok(m) => r matches Ok(x) && x@ == m,
            Err(e) => r matches Err(x) && x == e,
        },
{
    let pairs = match function_entries(v) {
        Ok(pairs) => pairs,
        Err(e) => return Err(e),
    };
    let mut map: BTreeMap<WriteId, ComparableDirtyRecord> = BTreeMap::new();
    proof {
        assert(map@ =~= Map::<WriteId, ComparableDirtyRecord>::empty());
    }
    match dirty_into(&pairs, &mut map) {
        Ok(()) => Ok(map),
        Err(e) => Err(e),
    }
}

/// The clean records of a function map from ids.
pub open spec fn spec_clean_map(v: TraceValue) -> Result<Map<CacheId, ComparableCleanRecord>, TraceError> {
    match spec_function_entries(v) {
        Ok(entries) => clean_from(entries, Map::empty()),
        Err(e) => Err(e),
    }
}

/// Reads the clean records of a function map from ids.
pub fn parse_clean_map(v: &TraceValue) -> (r: Result<BTreeMap<CacheId, ComparableCleanRecord>, TraceError>)
    ensures
        match spec_clean_map(*v) {
            Ok(m) => r matches Ok(x) && x@ == m,
            Err(e) => r matches Err(x) && x == e,
        },
{
    let pairs = match function_entries(v) {
        Ok(pairs) => pairs,
        Err(e) => return Err(e),
    };
    let mut map: BTreeMap<CacheId, ComparableCleanRecord> = BTreeMap::new();
    proof {
        assert(map@ =~= Map::<CacheId, ComparableCleanRecord>::empty());
    }
    match clean_into(&pairs, &mut map) {
        Ok(()) => Ok(map),
        Err(e) => Err(e),
    }
}

/// The durable values of a function map from keys.
pub open spec fn spec_durable_map(v: TraceValue) -> Result<Map<KeyId, ComparableDurableValue>, TraceError> {
    match spec_function_entries(v) {
        Ok(entries) => durable_from(entries, Map::empty()),
        Err(e) => Err(e),
    }
}

/// Reads the durable values of a function map from keys.
pub fn parse_durable_map(v: &TraceValue) -> (r: Result<BTreeMap<KeyId, ComparableDurableValue>, TraceError>)
    ensures
        match spec_durable_map(*v) {
            Ok(m) => r matches Ok(x) && x@ == m,
            Err(e) => r matches Err(x) && x == e,
        },
{
    let pairs = match function_entries(v) {
        Ok(pairs) => pairs,
        Err(e) => return Err(e),
    };
    let mut map: BTreeMap<KeyId, ComparableDurableValue> = BTreeMap::new();
    proof {
        assert(map@ =~= Map::<KeyId, ComparableDurableValue>::empty());
    }
    match durable_into(&pairs, &mut map) {
        Ok(()) => Ok(map),
        Err(e) => Err(e),
    }
}

/// The elements of `items` read as indices, in order; the first that does not read stops it.
pub open spec fn spec_numbers(items: Seq<TraceValue>) -> Result<Seq<usize>, TraceError>
    decreases items.len(),
{
    if items.len() == 0 {
        Ok(Seq::empty())
    } else {
        match spec_number(items[0]) {
            Err(e) => Err(e),
            Ok(n) => match spec_numbers(items.drop_first()) {
                Err(e) => Err(e),
                Ok(rest) => Ok(seq![n] + rest),
            },
        }
    }
}

fn numbers_into(items: &TraceValues, out: &mut Vec<usize>) -> (r: Result<(), TraceError>)
    ensures
        match spec_numbers(values_seq(*items)) {
            Ok(ns) => r is Ok && final(out)@ == old(out)@ + ns,
            Err(e) => r == Err::<(), TraceError>(e),
        },
    decreases *items,
{
    match items {
        TraceValues::Empty => {
            assert(old(out)@ + Seq::<usize>::empty() =~= old(out)@);
            Ok(())
        },
        TraceValues::Cons(head, tail) => {
            assert(values_seq(*items).drop_first() =~= values_seq(**tail));
            let n = match parse_number(head) {
                Ok(n) => n,
                Err(e) => return Err(e),
            };
            let ghost before = out@;
            out.push(n);
            let r = numbers_into(tail, out);
            proof {
                if let Ok(rest) = spec_numbers(values_seq(**tail)) {
                    assert(before.push(n) + rest =~= before + (seq![n] + rest));
                }
            }
            r
        },
    }
}

/// A sequence of ids: a list or a tuple of indices.
pub open spec fn spec_id_sequence(v: TraceValue) -> Result<Seq<usize>, TraceError> {
    match v {
        TraceValue::List(items) => spec_numbers(values_seq(items)),
        TraceValue::Tuple(items) => spec_numbers(values_seq(items)),
        _ => Err(TraceError::Expected(Expectation::Sequence, v)),
    }
}

/// Reads a sequence of ids.
pub fn parse_id_sequence(v: &TraceValue) -> (r: Result<Vec<usize>, TraceError>)
    ensures
        match spec_id_sequence(*v) {
            Ok(ns) => r matches Ok(x) && x@ == ns,
            Err(e) => r matches Err(x) && x == e,
        },
{
    let items = match v {
        TraceValue::List(items) => items,
        TraceValue::Tuple(items) => items,
        _ => return Err(TraceError::Expected(Expectation::Sequence, copy_value(v))),
    };
    let mut out: Vec<usize> = Vec::new();
    match numbers_into(items, &mut out) {
        Ok(()) => {
            assert(out@ =~= Seq::<usize>::empty() + out@);
            Ok(out)
        },
        Err(e) => Err(e),
    }
}

/// A set of ids: a set or a list of indices.
pub open spec fn spec_id_set(v: TraceValue) -> Result<Set<usize>, TraceError> {
    let items = match v {
        TraceValue::SetOf(items) => Some(items),
        TraceValue::List(items) => Some(items),
        _ => None,
    };
    match items {
        Some(items) => match spec_numbers(values_seq(items)) {
            Ok(ns) => Ok(ns.to_set()),
            Err(e) => Err(e),
        },
        None => Err(TraceError::Expected(Expectation::SetOfValues, v)),
    }
}

/// Reads a set of ids.
pub fn parse_id_set(v: &TraceValue) -> (r: Result<BTreeSet<usize>, TraceError>)
    ensures
        match spec_id_set(*v) {
            Ok(ns) => r matches Ok(x) && x@ == ns,
            Err(e) => r matches Err(x) && x == e,
        },
{
    let items = match v {
        TraceValue::SetOf(items) => items,
        TraceValue::List(items) => items,
        _ => return Err(TraceError::Expected(Expectation::SetOfValues, copy_value(v))),
    };
    let mut ids: Vec<usize> = Vec::new();
    match numbers_into(items, &mut ids) {
        Ok(()) => {},
        Err(e) => return Err(e),
    }
    assert(ids@ =~= Seq::<usize>::empty() + ids@);
    let mut set: BTreeSet<usize> = BTreeSet::new();
    let mut i: usize = 0;
    while i < ids.len()
        invariant
            i <= ids@.len(),
            set@ == ids@.take(i as int).to_set(),
        decreases ids@.len() - i,
    {
        proof {
            assert(ids@.take(i + 1) =~= ids@.take(i as int).push(ids@[i as int]));
            ids@.take(i as int).lemma_push_to_set_commute(ids@[i as int]);
        }
        set.insert(ids[i]);
        i += 1;
    }
    assert(ids@.take(ids@.len() as int) =~= ids@);
    Ok(set)
}

/// The comparable state a trace state describes: a record with the fields `visible`,
/// `writeStore`, `writeHist`, `dirtyQ`, `cacheStore`, `durable`, `flushed`, `createdDirty`,
/// `nextWrite`, `nextCache`, `crashed` and `badRead`, read in that order; the first field that
/// is missing or does not read gives the error.
pub open spec fn spec_comparable_state(v: TraceValue) -> Result<ComparableStateView, TraceError> {
    match spec_expect_record(v) {
        Err(e) => Err(e),
        Ok(_) => match spec_field(v, "visible") {
            Err(e) => Err(e),
            Ok(f) => match spec_visible(f) {
                Err(e) => Err(e),
                Ok(visible) => match spec_field(v, "writeStore") {
                    Err(e) => Err(e),
                    Ok(f) => match spec_dirty_map(f) {
                        Err(e) => Err(e),
                        Ok(write_store) => match spec_field(v, "writeHist") {
                            Err(e) => Err(e),
                            Ok(f) => match spec_dirty_map(f) {
                                Err(e) => Err(e),
                                Ok(write_hist) => match spec_field(v, "dirtyQ") {
                                    Err(e) => Err(e),
                                    Ok(f) => match spec_id_sequence(f) {
                                        Err(e) => Err(e),
                                        Ok(dirty_q) => spec_comparable_rest(v, visible, write_store, write_hist, dirty_q),
                                    },
                                },
                            },
                        },
                    },
                },
            },
        },
    }
}

/// The rest of [`spec_comparable_state`], once the first four fields are read.
pub open spec fn spec_comparable_rest(
    v: TraceValue,
    visible: Map<KeyId, ComparableVisibleRef>,
    write_store: Map<WriteId, ComparableDirtyRecord>,
    write_hist: Map<WriteId, ComparableDirtyRecord>,
    dirty_q: Seq<WriteId>,
) -> Result<ComparableStateView, TraceError> {
    match spec_field(v, "cacheStore") {
        Err(e) => Err(e),
        Ok(f) => match spec_clean_map(f) {
            Err(e) => Err(e),
            Ok(cache_store) => match spec_field(v, "durable") {
                Err(e) => Err(e),
                Ok(f) => match spec_durable_map(f) {
                    Err(e) => Err(e),
                    Ok(durable) => match spec_field(v, "flushed") {
                        Err(e) => Err(e),
                        Ok(f) => match spec_id_sequence(f) {
                            Err(e) => Err(e),
                            Ok(flushed) => match spec_field(v, "createdDirty") {
                                Err(e) => Err(e),
                                Ok(f) => match spec_id_set(f) {
                                    Err(e) => Err(e),
                                    Ok(created_dirty) => match spec_number_field(v, "nextWrite") {
                                        Err(e) => Err(e),
                                        Ok(next_write) => match spec_number_field(v, "nextCache") {
                                            Err(e) => Err(e),
                                            Ok(next_cache) => match spec_bool_field(v, "crashed") {
                                                Err(e) => Err(e),
                                                Ok(crashed) => match spec_bool_field(v, "badRead") {
                                                    Err(e) => Err(e),
                                                    Ok(bad_read) => Ok(
                                                        ComparableStateView {
                                                            visible,
                                                            write_store,
                                                            write_hist,
                                                            dirty_q,
                                                            cache_store,
                                                            durable,
                                                            flushed,
                                                            created_dirty,
                                                            next_write,
                                                            next_cache,
                                                            crashed,
                                                            bad_read,
                                                        },
                                                    ),
                                                },
                                            },
                                        },
                                    },
                                },
                            },
                        },
                    },
                },
            },
        },
    }
}


impl ComparableState {
    /// The comparable state a trace state describes.
    pub fn from_trace(v: &TraceValue) -> (r: Result<ComparableState, TraceError>)
        ensures
            match spec_comparable_state(*v) {
                Ok(state) => r matches Ok(x) && x@ == state,
                Err(e) => r matches Err(x) && x == e,
            },
    {
        match expect_record(v) {
            Ok(_) => {},
            Err(e) => return Err(e),
        }
        let visible = match field(v, "visible") {
            Err(e) => return Err(e),
            Ok(f) => match parse_visible(f) {
                Ok(x) => x,
                Err(e) => return Err(e),
            },
        };
        let write_store = match field(v, "writeStore") {
            Err(e) => return Err(e),
            Ok(f) => match parse_dirty_map(f) {
                Ok(x) => x,
                Err(e) => return Err(e),
            },
        };
        let write_hist = match field(v, "writeHist") {
            Err(e) => return Err(e),
            Ok(f) => match parse_dirty_map(f) {
                Ok(x) => x,
                Err(e) => return Err(e),
            },
        };
        let dirty_q = match field(v, "dirtyQ") {
            Err(e) => return Err(e),
            Ok(f) => match parse_id_sequence(f) {
                Ok(x) => x,
                Err(e) => return Err(e),
            },
        };
        let cache_store = match field(v, "cacheStore") {
            Err(e) => return Err(e),
            Ok(f) => match parse_clean_map(f) {
                Ok(x) => x,
                Err(e) => return Err(e),
            },
        };
        let durable = match field(v, "durable") {
            Err(e) => return Err(e),
            Ok(f) => match parse_durable_map(f) {
                Ok(x) => x,
                Err(e) => return Err(e),
            },
        };
        let flushed = match field(v, "flushed") {
            Err(e) => return Err(e),
            Ok(f) => match parse_id_sequence(f) {
                Ok(x) => x,
                Err(e) => return Err(e),
            },
        };
        let created_dirty = match field(v, "createdDirty") {
            Err(e) => return Err(e),
            Ok(f) => match parse_id_set(f) {
                Ok(x) => x,
                Err(e) => return Err(e),
            },
        };
        let next_write = match parse_id(v, "nextWrite") {
            Ok(x) => x,
            Err(e) => return Err(e),
        };
        let next_cache = match parse_id(v, "nextCache") {
            Ok(x) => x,
            Err(e) => return Err(e),
        };
        let crashed = match bool_field(v, "crashed") {
            Ok(x) => x,
            Err(e) => return Err(e),
        };
        let bad_read = match bool_field(v, "badRead") {
            Ok(x) => x,
            Err(e) => return Err(e),
        };

        Ok(
            ComparableState {
                visible,
                write_store,
                write_hist,
                dirty_q,
                cache_store,
                durable,
                flushed,
                created_dirty,
                next_write,
                next_cache,
                crashed,
                bad_read,
            },
        )
    }
}

/// The model step a trace step names: its action and what the step picked.
pub open spec fn spec_model_step(action: String, picks: TraceValue) -> Result<ModelStep, TraceError> {
    if action@ == "WriterWrite"@ {
        match spec_key_value(picks) {
            Ok((key, value)) => Ok(ModelStep::WriterWrite { key, value }),
            Err(e) => Err(e),
        }
    } else if action@ == "FlusherFlushNext"@ {
        Ok(ModelStep::FlusherFlushNext)
    } else if action@ == "FlusherDrop"@ {
        match spec_number_field(picks, "id") {
            Ok(id) => Ok(ModelStep::FlusherDrop { id }),
            Err(e) => Err(e),
        }
    } else if action@ == "CacheInsert"@ {
        match spec_number_field(picks, "key") {
            Ok(key) => Ok(ModelStep::CacheInsert { key }),
            Err(e) => Err(e),
        }
    } else if action@ == "CacheDropRecord"@ {
        match spec_number_field(picks, "id") {
            Ok(id) => Ok(ModelStep::CacheDropRecord { id }),
            Err(e) => Err(e),
        }
    } else if action@ == "CacheCleanupVisible"@ {
        match spec_number_field(picks, "id") {
            Ok(id) => Ok(ModelStep::CacheCleanupVisible { id }),
            Err(e) => Err(e),
        }
    } else if action@ == "ReaderStep"@ {
        match spec_number_field(picks, "key") {
            Ok(key) => Ok(ModelStep::ReaderStep { key }),
            Err(e) => Err(e),
        }
    } else if action@ == "Crash"@ {
        Ok(ModelStep::Crash)
    } else {
        Err(TraceError::UnknownAction(action))
    }
}

/// Reads the model step a trace step names.
pub fn model_step_from_trace(action: &String, picks: &TraceValue) -> (r: Result<ModelStep, TraceError>)
    ensures
        r == spec_model_step(*action, *picks),
{
    if is_named(action, "WriterWrite") {
        match parse_key_value(picks) {
            Ok((key, value)) => Ok(ModelStep::WriterWrite { key, value }),
            Err(e) => Err(e),
        }
    } else if is_named(action, "FlusherFlushNext") {
        Ok(ModelStep::FlusherFlushNext)
    } else if is_named(action, "FlusherDrop") {
        match parse_id(picks, "id") {
            Ok(id) => Ok(ModelStep::FlusherDrop { id }),
            Err(e) => Err(e),
        }
    } else if is_named(action, "CacheInsert") {
        match parse_id(picks, "key") {
            Ok(key) => Ok(ModelStep::CacheInsert { key }),
            Err(e) => Err(e),
        }
    } else if is_named(action, "CacheDropRecord") {
        match parse_id(picks, "id") {
            Ok(id) => Ok(ModelStep::CacheDropRecord { id }),
            Err(e) => Err(e),
        }
    } else if is_named(action, "CacheCleanupVisible") {
        match parse_id(picks, "id") {
            Ok(id) => Ok(ModelStep::CacheCleanupVisible { id }),
            Err(e) => Err(e),
        }
    } else if is_named(action, "ReaderStep") {
        match parse_id(picks, "key") {
            Ok(key) => Ok(ModelStep::ReaderStep { key }),
            Err(e) => Err(e),
        }
    } else if is_named(action, "Crash") {
        Ok(ModelStep::Crash)
    } else {
        Err(TraceError::UnknownAction(action.clone()))
    }
}

} // verus!
