use cachelog::model::comparable::{ComparableState, ComparableVisibleRef};
use cachelog::model::trace::{DriverStepError, ModelDriver};
use cachelog::model::trace_value::{
    copy_value, fields_from_vec, model_step_from_trace, pairs_from_vec, parse_id_set, parse_number,
    parse_numeral, parse_visible, parse_visible_ref, values_from_vec, Expectation, NumeralError,
    TraceError, TraceValue,
};
use cachelog::model::{ModelConfig, ModelError, ModelStep};

fn num(n: i64) -> TraceValue {
    TraceValue::Number(n)
}

fn text(s: &str) -> TraceValue {
    TraceValue::String(s.to_string())
}

fn record(fields: Vec<(&str, TraceValue)>) -> TraceValue {
    TraceValue::Record(fields_from_vec(
        fields.into_iter().map(|(name, v)| (name.to_string(), v)).collect(),
    ))
}

fn function_map(pairs: Vec<(TraceValue, TraceValue)>) -> TraceValue {
    TraceValue::FunctionMap(pairs_from_vec(pairs))
}

fn list(items: Vec<TraceValue>) -> TraceValue {
    TraceValue::List(values_from_vec(items))
}

fn set(items: Vec<TraceValue>) -> TraceValue {
    TraceValue::SetOf(values_from_vec(items))
}

fn visible_ref(kind: &str, id: i64) -> TraceValue {
    record(vec![("kind", text(kind)), ("id", num(id))])
}

fn write_record(present: bool, id: i64, key: i64, value: i64) -> TraceValue {
    record(vec![
        ("present", TraceValue::Bool(present)),
        ("id", num(id)),
        ("key", num(key)),
        ("value", num(value)),
    ])
}

fn durable_value(present: bool, value: i64, seq: i64) -> TraceValue {
    record(vec![
        ("present", TraceValue::Bool(present)),
        ("value", num(value)),
        ("seq", num(seq)),
    ])
}

struct TraceStep {
    action: String,
    picks: TraceValue,
    state: TraceValue,
}

fn trace_state(
    action: &str,
    picks: TraceValue,
    visible0: TraceValue,
    write0: TraceValue,
    dirty_q: Vec<i64>,
    durable0: TraceValue,
    flushed: Vec<i64>,
) -> TraceStep {
    let absent_write = || write_record(false, -1, 0, 0);
    let state = record(vec![
        ("action_taken", text(action)),
        ("nondet_picks", copy_value(&picks)),
        ("visible", function_map(vec![(num(0), visible0), (num(1), visible_ref("None", -1))])),
        (
            "writeStore",
            function_map(vec![(num(0), copy_value(&write0)), (num(1), absent_write()), (num(2), absent_write())]),
        ),
        (
            "writeHist",
            function_map(vec![(num(0), write0), (num(1), absent_write()), (num(2), absent_write())]),
        ),
        ("dirtyQ", list(dirty_q.into_iter().map(num).collect())),
        (
            "cacheStore",
            function_map(vec![(num(0), write_record(false, -1, 0, 0)), (num(1), write_record(false, -1, 0, 0))]),
        ),
        ("durable", function_map(vec![(num(0), durable0), (num(1), durable_value(false, 0, -1))])),
        ("flushed", list(flushed.into_iter().map(num).collect())),
        ("createdDirty", set(vec![num(0)])),
        ("nextWrite", num(1)),
        ("nextCache", num(0)),
        ("crashed", TraceValue::Bool(false)),
        ("badRead", TraceValue::Bool(false)),
    ]);
    TraceStep { action: action.to_string(), picks, state }
}

#[test]
fn replay_inline_trace() {
    let states = vec![
        trace_state(
            "WriterWrite",
            record(vec![("key", num(0)), ("value", num(1))]),
            visible_ref("Dirty", 0),
            write_record(true, 0, 0, 1),
            vec![0],
            durable_value(false, 0, -1),
            vec![],
        ),
        trace_state(
            "FlusherFlushNext",
            visible_ref("None", -1),
            visible_ref("Dirty", 0),
            write_record(true, 0, 0, 1),
            vec![],
            durable_value(true, 1, 0),
            vec![0],
        ),
    ];

    let mut driver = ModelDriver::new(ModelConfig::tla_small());
    for step in &states {
        driver.step(&step.action, &step.picks).expect("step applies");
        let spec_state = ComparableState::from_trace(&step.state).expect("state reads");
        let driver_state = ComparableState::from(&driver.state);
        assert_eq!(spec_state, driver_state);
    }
}

#[test]
fn numbers_read_from_numbers_big_integers_and_strings() {
    assert_eq!(parse_number(&num(5)), Ok(5));
    assert_eq!(
        parse_number(&num(-1)),
        Err(TraceError::Expected(Expectation::NonNegativeNumber, num(-1)))
    );
    assert_eq!(parse_number(&TraceValue::BigInt("42".to_string())), Ok(42));
    assert_eq!(parse_number(&text("+7")), Ok(7));
    assert_eq!(
        parse_number(&TraceValue::BigInt("-3".to_string())),
        Err(TraceError::BadNumeral(NumeralError::InvalidDigit))
    );
    assert_eq!(
        parse_number(&TraceValue::Bool(true)),
        Err(TraceError::Expected(Expectation::NonNegativeNumber, TraceValue::Bool(true)))
    );
}

#[test]
fn numerals_follow_decimal_index_rules() {
    assert_eq!(parse_numeral(&String::new()), Err(NumeralError::Empty));
    assert_eq!(parse_numeral(&"+".to_string()), Err(NumeralError::InvalidDigit));
    assert_eq!(parse_numeral(&"12a".to_string()), Err(NumeralError::InvalidDigit));
    assert_eq!(parse_numeral(&"007".to_string()), Ok(7));
    assert_eq!(parse_numeral(&usize::MAX.to_string()), Ok(usize::MAX));
    assert_eq!(
        parse_numeral(&"99999999999999999999999x".to_string()),
        Err(NumeralError::PosOverflow)
    );
    for s in ["", "+", "-1", "1_0", "18446744073709551616", "+0", "42"] {
        let expected = s.parse::<usize>().map_err(|_| ());
        assert_eq!(parse_numeral(&s.to_string()).map_err(|_| ()), expected, "numeral {s:?}");
    }
}

#[test]
fn visible_refs_and_maps_read_by_kind() {
    assert_eq!(parse_visible_ref(&visible_ref("None", -1)), Ok(None));
    assert_eq!(
        parse_visible_ref(&visible_ref("Clean", 3)),
        Ok(Some(ComparableVisibleRef::Clean(3)))
    );
    assert_eq!(
        parse_visible_ref(&visible_ref("Weird", 3)),
        Err(TraceError::UnknownVisibleKind("Weird".to_string()))
    );
    assert_eq!(
        parse_visible_ref(&record(vec![("id", num(1))])),
        Err(TraceError::MissingField("kind"))
    );
    assert_eq!(
        parse_visible_ref(&num(1)),
        Err(TraceError::Expected(Expectation::Record, num(1)))
    );
    let by_record = record(vec![("1", visible_ref("Dirty", 4)), ("0", visible_ref("None", -1))]);
    let map = parse_visible(&by_record).expect("record reads as a map");
    assert_eq!(map.len(), 1);
    assert_eq!(map.get(&1), Some(&ComparableVisibleRef::Dirty(4)));
    assert_eq!(
        parse_visible(&list(vec![])),
        Err(TraceError::Expected(Expectation::FunctionMap, list(vec![])))
    );
}

#[test]
fn id_sets_accept_sets_and_lists() {
    let ids = parse_id_set(&list(vec![num(3), num(1), num(3)])).expect("list reads");
    assert_eq!(ids.into_iter().collect::<Vec<_>>(), vec![1, 3]);
    assert_eq!(
        parse_id_set(&TraceValue::Tuple(values_from_vec(vec![]))),
        Err(TraceError::Expected(
            Expectation::SetOfValues,
            TraceValue::Tuple(values_from_vec(vec![]))
        ))
    );
}

#[test]
fn trace_steps_name_model_steps() {
    let picks = record(vec![("key", num(1)), ("value", num(0))]);
    assert_eq!(
        model_step_from_trace(&"WriterWrite".to_string(), &picks),
        Ok(ModelStep::WriterWrite { key: 1, value: 0 })
    );
    assert_eq!(
        model_step_from_trace(&"Crash".to_string(), &picks),
        Ok(ModelStep::Crash)
    );
    assert_eq!(
        model_step_from_trace(&"FlusherDrop".to_string(), &picks),
        Err(TraceError::MissingField("id"))
    );
    assert_eq!(
        model_step_from_trace(&"Jump".to_string(), &picks),
        Err(TraceError::UnknownAction("Jump".to_string()))
    );
}

#[test]
fn driver_reports_refused_steps() {
    let mut driver = ModelDriver::new(ModelConfig::tla_small());
    let picks = record(vec![("id", num(5))]);
    assert_eq!(
        driver.step(&"CacheDropRecord".to_string(), &picks),
        Err(DriverStepError::ActionFailed {
            action: "CacheDropRecord".to_string(),
            reason: ModelError::InvalidCacheId(5),
        })
    );
    assert_eq!(
        driver.step(&"Nope".to_string(), &picks),
        Err(DriverStepError::Trace(TraceError::UnknownAction("Nope".to_string())))
    );
}
