use hades_save::container::{load_version_id, Version16};
use hades_save::json::{BridgeError, JsonValue};
use hades_save::number::{index_bits, is_finite_number, number_to_u32};
use hades_save::value::{LuaKey, LuaState, LuaValue};

fn num_key(n: f64) -> LuaKey {
    LuaKey::Number { bits: n.to_bits(), text: n.to_string() }
}

fn str_key(s: &str) -> LuaKey {
    LuaKey::String(s.to_string())
}

fn num(n: f64) -> LuaValue {
    LuaValue::Number(n.to_bits())
}

fn darkness_state(value: LuaValue) -> LuaState {
    LuaState(vec![
        (str_key("Other"), LuaValue::Nil),
        (
            str_key("GameState"),
            LuaValue::Table(vec![(
                str_key("Resources"),
                LuaValue::Table(vec![(str_key("Gems"), num(5.0)), (str_key("MetaPoints"), value)]),
            )]),
        ),
    ])
}

fn path(p: &[&str]) -> Vec<String> {
    p.iter().map(|s| s.to_string()).collect()
}

fn member<'a>(j: &'a JsonValue, name: &str) -> &'a JsonValue {
    match j {
        JsonValue::Object(m) => &m.iter().find(|(k, _)| k == name).unwrap().1,
        _ => panic!("not an object"),
    }
}

#[test]
fn index_keys_make_an_array() {
    let table = LuaValue::Table(vec![
        (num_key(1.0), LuaValue::String("a".to_string())),
        (num_key(2.0), LuaValue::Boolean(true)),
        (num_key(3.0), num(7.0)),
    ]);
    let json = LuaState(vec![(str_key("t"), table)]).to_json().unwrap();
    match member(&json, "t") {
        JsonValue::Array(items) => {
            assert_eq!(items.len(), 3);
            assert!(matches!(&items[0], JsonValue::String(s) if s == "a"));
            assert!(matches!(items[1], JsonValue::Bool(true)));
            assert!(matches!(items[2], JsonValue::Number(b) if b == 7.0f64.to_bits()));
        }
        _ => panic!("expected an array"),
    }
}

#[test]
fn array_keeps_stored_order() {
    let table = LuaValue::Table(vec![
        (num_key(2.0), num(20.0)),
        (num_key(1.0), num(10.0)),
    ]);
    let json = LuaState(vec![(str_key("t"), table)]).to_json().unwrap();
    match member(&json, "t") {
        JsonValue::Array(items) => {
            assert!(matches!(items[0], JsonValue::Number(b) if b == 20.0f64.to_bits()));
            assert!(matches!(items[1], JsonValue::Number(b) if b == 10.0f64.to_bits()));
        }
        _ => panic!("expected an array"),
    }
}

#[test]
fn missing_index_makes_an_object() {
    let table = LuaValue::Table(vec![(num_key(1.0), num(1.0)), (num_key(3.0), num(3.0))]);
    let json = LuaState(vec![(str_key("t"), table)]).to_json().unwrap();
    match member(&json, "t") {
        JsonValue::Object(m) => {
            let names: Vec<&str> = m.iter().map(|(k, _)| k.as_str()).collect();
            assert_eq!(names, vec!["1", "3"]);
        }
        _ => panic!("expected an object"),
    }
}

#[test]
fn fractional_key_is_no_index() {
    let table = LuaValue::Table(vec![(num_key(1.5), num(1.0))]);
    let json = LuaState(vec![(str_key("t"), table)]).to_json().unwrap();
    assert!(matches!(member(&json, "t"), JsonValue::Object(m) if m[0].0 == "1.5"));
}

#[test]
fn empty_table_is_an_empty_array() {
    let json = LuaState(vec![(str_key("t"), LuaValue::Table(vec![]))]).to_json().unwrap();
    assert!(matches!(member(&json, "t"), JsonValue::Array(items) if items.is_empty()));
}

#[test]
fn scalars_map_to_json_scalars() {
    let state = LuaState(vec![
        (str_key("n"), num(144.0)),
        (str_key("b"), LuaValue::Boolean(true)),
        (str_key("z"), LuaValue::Nil),
        (str_key("s"), LuaValue::String("x".to_string())),
    ]);
    let json = state.to_json().unwrap();
    assert!(matches!(member(&json, "n"), JsonValue::Number(b) if f64::from_bits(*b) == 144.0));
    assert!(matches!(member(&json, "b"), JsonValue::Bool(true)));
    assert!(matches!(member(&json, "z"), JsonValue::Null));
    assert!(matches!(member(&json, "s"), JsonValue::String(s) if s == "x"));
}

#[test]
fn non_finite_number_is_an_error() {
    let state = LuaState(vec![(str_key("n"), num(f64::NAN))]);
    assert_eq!(state.to_json().unwrap_err(), BridgeError::NonFiniteNumber);
    let state = LuaState(vec![(str_key("n"), num(f64::INFINITY))]);
    assert_eq!(state.to_json().unwrap_err(), BridgeError::NonFiniteNumber);
}

#[test]
fn boolean_key_is_unsupported() {
    let state = LuaState(vec![(LuaKey::Boolean(true), num(1.0))]);
    assert_eq!(state.to_json().unwrap_err(), BridgeError::UnsupportedKey);
}

#[test]
fn from_json_keys_arrays_by_number_from_one() {
    let json = vec![(
        "list".to_string(),
        JsonValue::Array(vec![JsonValue::Null, JsonValue::Bool(false)]),
    )];
    let state = LuaState::from_json(&json).unwrap();
    match &state.0[0] {
        (LuaKey::String(k), LuaValue::Table(e)) => {
            assert_eq!(k, "list");
            assert!(matches!(&e[0], (LuaKey::Number { bits, text }, LuaValue::Nil)
                if *bits == 1.0f64.to_bits() && text == "1"));
            assert!(matches!(&e[1], (LuaKey::Number { bits, text }, LuaValue::Boolean(false))
                if *bits == 2.0f64.to_bits() && text == "2"));
        }
        _ => panic!("expected a table"),
    }
}

#[test]
fn json_round_trip_through_lua() {
    let json = vec![
        ("a".to_string(), JsonValue::Array(vec![JsonValue::Number(3.5f64.to_bits())])),
        ("b".to_string(), JsonValue::Object(vec![("c".to_string(), JsonValue::String("d".to_string()))])),
    ];
    let back = LuaState::from_json(&json).unwrap().to_json().unwrap();
    assert!(matches!(member(&back, "a"), JsonValue::Array(items)
        if matches!(items[0], JsonValue::Number(b) if b == 3.5f64.to_bits())));
    assert!(matches!(member(member(&back, "b"), "c"), JsonValue::String(s) if s == "d"));
}

#[test]
fn path_accessor_reads_and_writes() {
    let mut state = darkness_state(num(200.0));
    let p = path(&["GameState", "Resources", "MetaPoints"]);
    assert!(matches!(state.deep_find(&p), Some(LuaValue::Number(b)) if *b == 200.0f64.to_bits()));
    assert!(state.deep_replace(&p, num(500.0)));
    assert!(matches!(state.deep_find(&p), Some(LuaValue::Number(b)) if *b == 500.0f64.to_bits()));
    let gems = path(&["GameState", "Resources", "Gems"]);
    assert!(matches!(state.deep_find(&gems), Some(LuaValue::Number(b)) if *b == 5.0f64.to_bits()));
}

#[test]
fn path_accessor_misses() {
    let mut state = darkness_state(num(200.0));
    assert!(state.deep_find(&path(&["GameState", "Nope", "MetaPoints"])).is_none());
    assert!(state.deep_find(&path(&["Other", "x"])).is_none());
    assert!(state.deep_find(&path(&[])).is_none());
    assert!(!state.deep_replace(&path(&["Other", "x"]), LuaValue::Nil));
    assert!(matches!(state.0[0].1, LuaValue::Nil));
}

#[test]
fn darkness_reads_and_writes() {
    let mut state = darkness_state(num(144.0));
    assert_eq!(state.darkness(), 144);
    state.set_darkness(500);
    assert_eq!(state.darkness(), 500);
    assert!(matches!(state.deep_find(&path(&["GameState", "Resources", "MetaPoints"])),
        Some(LuaValue::Number(b)) if *b == 500.0f64.to_bits()));
}

#[test]
fn darkness_truncates_and_defaults() {
    assert_eq!(darkness_state(num(144.9)).darkness(), 144);
    assert_eq!(darkness_state(LuaValue::Boolean(true)).darkness(), 0);
    let mut state = darkness_state(LuaValue::String("x".to_string()));
    state.set_darkness(9);
    assert!(matches!(state.deep_find(&path(&["GameState", "Resources", "MetaPoints"])),
        Some(LuaValue::String(s)) if s == "x"));
}

#[test]
fn number_conversions() {
    for n in [0u64, 1, 2, 3, 144, 500, 1 << 40, (1 << 53) - 1] {
        assert_eq!(index_bits(n), (n as f64).to_bits());
    }
    assert_eq!(number_to_u32(144.5f64.to_bits()), 144);
    assert_eq!(number_to_u32((-3.0f64).to_bits()), 0);
    assert_eq!(number_to_u32(1e20f64.to_bits()), u32::MAX);
    assert_eq!(number_to_u32(f64::NAN.to_bits()), 0);
    assert_eq!(number_to_u32(4294967295.0f64.to_bits()), u32::MAX);
    assert_eq!(number_to_u32(0.75f64.to_bits()), 0);
    assert!(is_finite_number(1.0f64.to_bits()));
    assert!(!is_finite_number(f64::NEG_INFINITY.to_bits()));
}

#[test]
fn end_to_end_round_trip() {
    let record = Version16 {
        time: 7,
        location: "Hub".to_string(),
        runs: 1,
        active_meta_points: 2,
        active_shrine_points: 3,
        god_mode_enabled: false,
        hell_mode_enabled: true,
        lua_keys: vec![],
        current_map_name: "A".to_string(),
        start_next_map: "B".to_string(),
        lua_state_compressed: hades_save::blob::compress_blob(&[1, 2, 3]),
    };
    let bytes = record.to_bytes();
    let (rest, id) = load_version_id(&bytes).unwrap();
    assert_eq!(id.version, 16);
    let loaded = Version16::load(rest).unwrap();
    assert_eq!(loaded.to_bytes(), bytes);
    assert_eq!(darkness_state(num(144.0)).darkness(), 144);
}
