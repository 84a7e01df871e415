//! The bridge between Lua values and JSON values.
use vstd::prelude::*;
use crate::number::{finite_bits, index_bits, int_bits, is_finite_number};
use crate::value::{is_string_key, LuaKey, LuaState, LuaValue};

verus! {

/// A JSON value. A number is held as the bits of its double.
#[derive(Debug)]
pub enum JsonValue {
    Null,
    Bool(bool),
    Number(u64),
    String(String),
    Array(Vec<JsonValue>),
    /// Members in their order.
    Object(Vec<(String, JsonValue)>),
}

/// Why a value could not be carried across.
#[derive(Debug, Clone, Copy, PartialEq, Eq, Structural)]
pub enum BridgeError {
    /// A table that is no array has a key that is neither a string nor a number.
    UnsupportedKey,
    /// A value is NaN or infinite.
    NonFiniteNumber,
    /// An array is too long for its indices to be exact doubles.
    IndexTooLarge,
}

/// Whether `k` is a number key whose value is `i`.
pub open spec fn key_is_index(k: LuaKey, i: int) -> bool {
    k matches LuaKey::Number { bits, .. } && bits == int_bits(i as u64)
}

/// Whether some key of `e` is the number `i`.
pub open spec fn has_index_key(e: Seq<(LuaKey, LuaValue)>, i: int) -> bool {
    exists|j: int| 0 <= j < e.len() && #[trigger] key_is_index(e[j].0, i)
}

/// A table of `n` entries is an array when each of `1..=n` is one of its keys.
pub open spec fn is_array(e: Seq<(LuaKey, LuaValue)>) -> bool {
    e.len() < 0x20000000000000 && forall|i: int| 1 <= i <= e.len() ==> #[trigger] has_index_key(e, i)
}

/// The text of a key as a JSON member name: a string, or a number's decimal text.
pub open spec fn key_text(k: LuaKey) -> Option<Seq<char>> {
    match k {
        LuaKey::String(s) => Some(s@),
        LuaKey::Number { text, .. } => Some(text@),
        _ => None,
    }
}

/// `j` is the JSON form of `v`.
pub open spec fn exports(v: LuaValue, j: JsonValue) -> bool
    decreases v,
{
    match v {
        LuaValue::Nil => j is Null,
        LuaValue::Boolean(b) => j matches JsonValue::Bool(c) && c == b,
        LuaValue::Number(b) => finite_bits(b) && (j matches JsonValue::Number(c) && c == b),
        LuaValue::String(s) => j matches JsonValue::String(t) && t@ == s@,
        LuaValue::Table(e) => if is_array(e@) {
            &&& j matches JsonValue::Array(items)
            &&& items.len() == e.len()
            &&& forall|i: int| 0 <= i < e.len() ==> exports(#[trigger] e@[i].1, items@[i])
        } else {
            &&& j matches JsonValue::Object(m)
            &&& m.len() == e.len()
            &&& forall|i: int|
                0 <= i < e.len() ==> key_text(e@[i].0) == Some(m@[i].0@) && exports(
                    #[trigger] e@[i].1,
                    m@[i].1,
                )
        },
    }
}

/// Carrying `v` across meets error `err` somewhere.
pub open spec fn fails_with(v: LuaValue, err: BridgeError) -> bool
    decreases v,
{
    match v {
        LuaValue::Number(b) => !finite_bits(b) && err == BridgeError::NonFiniteNumber,
        LuaValue::Table(e) => (!is_array(e@) && err == BridgeError::UnsupportedKey && exists|i: int|
            0 <= i < e.len() && #[trigger] key_text(e@[i].0) is None) || exists|i: int|
            0 <= i < e.len() && fails_with(#[trigger] e@[i].1, err),
        _ => false,
    }
}

/// `m` holds the members that the entries `e` become in a JSON object.
pub open spec fn exports_members(e: Seq<(LuaKey, LuaValue)>, m: Seq<(String, JsonValue)>) -> bool {
    &&& m.len() == e.len()
    &&& forall|i: int|
        0 <= i < e.len() ==> key_text(#[trigger] e[i].0) == Some(m[i].0@) && exports(e[i].1, m[i].1)
}

/// Making a JSON object of the entries `e` meets error `err`.
pub open spec fn members_fail_with(e: Seq<(LuaKey, LuaValue)>, err: BridgeError) -> bool {
    (err == BridgeError::UnsupportedKey && exists|i: int|
        0 <= i < e.len() && #[trigger] key_text(e[i].0) is None) || exists|i: int|
        0 <= i < e.len() && fails_with(#[trigger] e[i].1, err)
}

fn has_index(e: &Vec<(LuaKey, LuaValue)>, i: u64) -> (r: bool)
    requires
        i < 0x20000000000000,
    ensures
        r == has_index_key(e@, i as int),
{
    let want = index_bits(i);
    let mut j: usize = 0;
    while j < e.len()
        invariant
            j <= e@.len(),
            want == int_bits(i),
            forall|m: int| 0 <= m < j ==> !#[trigger] key_is_index(e@[m].0, i as int),
        decreases e@.len() - j,
    {
        let hit = match &e[j].0 {
            LuaKey::Number { bits, .. } => *bits == want,
            _ => false,
        };
        if hit {
            assert(key_is_index(e@[j as int].0, i as int));
            return true;
        }
        j += 1;
    }
    false
}

fn is_array_table(e: &Vec<(LuaKey, LuaValue)>) -> (r: bool)
    ensures
        r == is_array(e@),
{
    let n = e.len();
    if n as u64 >= 0x20000000000000u64 {
        return false;
    }
    let mut i: usize = 0;
    while i < n
        invariant
            i <= n,
            n == e@.len(),
            n < 0x20000000000000,
            forall|k: int| 1 <= k <= i ==> #[trigger] has_index_key(e@, k),
        decreases n - i,
    {
        if !has_index(e, (i + 1) as u64) {
            return false;
        }
        i += 1;
    }
    true
}

/// The JSON members for the entries of a table, in their order.
fn to_members(e: &Vec<(LuaKey, LuaValue)>) -> (r: Result<Vec<(String, JsonValue)>, BridgeError>)
    ensures
        match r {
            Ok(m) => exports_members(e@, m@),
            Err(err) => members_fail_with(e@, err),
        },
    decreases e,
{
    let mut m: Vec<(String, JsonValue)> = Vec::new();
    let mut i: usize = 0;
    while i < e.len()
        invariant
            i <= e@.len(),
            m@.len() == i,
            forall|k: int|
                0 <= k < i ==> key_text(#[trigger] e@[k].0) == Some(m@[k].0@) && exports(
                    e@[k].1,
                    m@[k].1,
                ),
        decreases e@.len() - i,
    {
        let key = match &e[i].0 {
            LuaKey::String(s) => s.clone(),
            LuaKey::Number { text, .. } => text.clone(),
            _ => {
                assert(key_text(e@[i as int].0) is None);
                return Err(BridgeError::UnsupportedKey);
            },
        };
        let value = match json_from_value(&e[i].1) {
            Ok(j) => j,
            Err(err) => {
                assert(fails_with(e@[i as int].1, err));
                return Err(err);
            },
        };
        let ghost before = m@;
        m.push((key, value));
        assert(m@[i as int].0@ == key_text(e@[i as int].0)->Some_0);
        assert forall|k: int| 0 <= k < i implies m@[k] == before[k] by {}
        i += 1;
    }
    Ok(m)
}

/// The JSON array items for the values of a table, in their order.
fn to_items(e: &Vec<(LuaKey, LuaValue)>) -> (r: Result<Vec<JsonValue>, BridgeError>)
    ensures
        match r {
            Ok(items) => items@.len() == e@.len() && forall|k: int|
                0 <= k < e@.len() ==> exports(#[trigger] e@[k].1, items@[k]),
            Err(err) => exists|k: int| 0 <= k < e@.len() && fails_with(#[trigger] e@[k].1, err),
        },
    decreases e,
{
    let mut items: Vec<JsonValue> = Vec::new();
    let mut i: usize = 0;
    while i < e.len()
        invariant
            i <= e@.len(),
            items@.len() == i,
            forall|k: int| 0 <= k < i ==> exports(#[trigger] e@[k].1, items@[k]),
        decreases e@.len() - i,
    {
        match json_from_value(&e[i].1) {
            Ok(j) => items.push(j),
            Err(err) => {
                assert(fails_with(e@[i as int].1, err));
                return Err(err);
            },
        }
        i += 1;
    }
    Ok(items)
}

/// The JSON form of a value.
fn json_from_value(v: &LuaValue) -> (r: Result<JsonValue, BridgeError>)
    ensures
        match r {
            Ok(j) => exports(*v, j),
            Err(err) => fails_with(*v, err),
        },
    decreases v,
{
    match v {
        LuaValue::Nil => Ok(JsonValue::Null),
        LuaValue::Boolean(b) => Ok(JsonValue::Bool(*b)),
        LuaValue::Number(b) => {
            if is_finite_number(*b) {
                Ok(JsonValue::Number(*b))
            } else {
                Err(BridgeError::NonFiniteNumber)
            }
        },
        LuaValue::String(s) => Ok(JsonValue::String(s.clone())),
        LuaValue::Table(e) => {
            if is_array_table(e) {
                match to_items(e) {
                    Ok(items) => Ok(JsonValue::Array(items)),
                    Err(err) => Err(err),
                }
            } else {
                match to_members(e) {
                    Ok(m) => Ok(JsonValue::Object(m)),
                    Err(err) => Err(err),
                }
            }
        },
    }
}

impl LuaState {
    /// The state as a JSON object: one member per top-level entry, in order.
    pub fn to_json(&self) -> (r: Result<JsonValue, BridgeError>)
        ensures
            match r {
                Ok(j) => j matches JsonValue::Object(m) && exports_members(self.0@, m@),
                Err(err) => members_fail_with(self.0@, err),
            },
    {
        match to_members(&self.0) {
            Ok(m) => Ok(JsonValue::Object(m)),
            Err(err) => Err(err),
        }
    }
}

/// The decimal digit `d`.
pub open spec fn digit_char(d: int) -> char {
    seq!['0', '1', '2', '3', '4', '5', '6', '7', '8', '9'][d]
}

/// The decimal digits of `n`, without sign or leading zeros.
pub open spec fn decimal(n: nat) -> Seq<char>
    decreases n,
{
    if n < 10 {
        seq![digit_char(n as int)]
    } else {
        decimal(n / 10).push(digit_char((n % 10) as int))
    }
}

/// Relies on the Display of u64, through to_string: the decimal digits of the
/// number, without sign or leading zeros.
#[verifier::external_body]
fn decimal_text(n: u64) -> (r: String)
    ensures
        r@ == decimal(n as nat),
{
    n.to_string()
}

/// Whether `k` is the number key for the array item at position `i`, which is
/// the number `i + 1`.
pub open spec fn index_key(k: LuaKey, i: int) -> bool {
    k matches LuaKey::Number { bits, text } && bits == int_bits((i + 1) as u64) && text@ == decimal(
        (i + 1) as nat,
    )
}

/// `e` holds the entries that the members `m` of a JSON object become.
pub open spec fn imports_members(m: Seq<(String, JsonValue)>, e: Seq<(LuaKey, LuaValue)>) -> bool {
    &&& e.len() == m.len()
    &&& forall|i: int|
        0 <= i < m.len() ==> is_string_key(e[i].0, m[i].0@) && imports(
            #[trigger] m[i].1,
            e[i].1,
        )
}

/// `v` is the Lua form of `j`: an array becomes a table keyed by the numbers
/// `1..=n`, an object a table keyed by its member names.
pub open spec fn imports(j: JsonValue, v: LuaValue) -> bool
    decreases j,
{
    match j {
        JsonValue::Null => v is Nil,
        JsonValue::Bool(b) => v matches LuaValue::Boolean(c) && c == b,
        JsonValue::Number(b) => v matches LuaValue::Number(c) && c == b,
        JsonValue::String(s) => v matches LuaValue::String(t) && t@ == s@,
        JsonValue::Array(items) => {
            &&& v matches LuaValue::Table(e)
            &&& items.len() < 0x20000000000000
            &&& e.len() == items.len()
            &&& forall|i: int|
                0 <= i < items.len() ==> index_key(e@[i].0, i) && imports(
                    #[trigger] items@[i],
                    e@[i].1,
                )
        },
        JsonValue::Object(m) => {
            &&& v matches LuaValue::Table(e)
            &&& e.len() == m.len()
            &&& forall|i: int|
                0 <= i < m.len() ==> is_string_key(e@[i].0, m@[i].0@)
                    && imports(#[trigger] m@[i].1, e@[i].1)
        },
    }
}

/// Some array inside `j` is too long for its indices to be exact doubles.
pub open spec fn too_long(j: JsonValue) -> bool
    decreases j,
{
    match j {
        JsonValue::Array(items) => items.len() >= 0x20000000000000 || exists|i: int|
            0 <= i < items.len() && too_long(#[trigger] items@[i]),
        JsonValue::Object(m) => exists|i: int| 0 <= i < m.len() && too_long(#[trigger] m@[i].1),
        _ => false,
    }
}

fn index_entries(items: &Vec<JsonValue>) -> (r: Result<LuaValue, BridgeError>)
    ensures
        match r {
            Ok(v) => imports(JsonValue::Array(*items), v),
            Err(err) => err == BridgeError::IndexTooLarge && too_long(JsonValue::Array(*items)),
        },
    decreases items,
{
    if items.len() as u64 >= 0x20000000000000u64 {
        return Err(BridgeError::IndexTooLarge);
    }
    let mut e: Vec<(LuaKey, LuaValue)> = Vec::new();
    let mut i: usize = 0;
    while i < items.len()
        invariant
            i <= items@.len(),
            items@.len() < 0x20000000000000,
            e@.len() == i,
            forall|k: int|
                0 <= k < i ==> index_key(#[trigger] e@[k].0, k) && imports(items@[k], e@[k].1),
        decreases items@.len() - i,
    {
        let value = match value_from_json(&items[i]) {
            Ok(v) => v,
            Err(err) => {
                assert(too_long(items@[i as int]));
                return Err(err);
            },
        };
        let n = (i + 1) as u64;
        let key = LuaKey::Number { bits: index_bits(n), text: decimal_text(n) };
        let ghost before = e@;
        e.push((key, value));
        assert forall|k: int| 0 <= k < i implies e@[k] == before[k] by {}
        i += 1;
    }
    Ok(LuaValue::Table(e))
}

fn member_entries(m: &Vec<(String, JsonValue)>) -> (r: Result<Vec<(LuaKey, LuaValue)>, BridgeError>)
    ensures
        match r {
            Ok(e) => imports_members(m@, e@) && imports(JsonValue::Object(*m), LuaValue::Table(e)),
            Err(err) => err == BridgeError::IndexTooLarge && exists|i: int|
                0 <= i < m@.len() && too_long(#[trigger] m@[i].1),
        },
    decreases m,
{
    let mut e: Vec<(LuaKey, LuaValue)> = Vec::new();
    let mut i: usize = 0;
    while i < m.len()
        invariant
            i <= m@.len(),
            e@.len() == i,
            forall|k: int|
                0 <= k < i ==> is_string_key(#[trigger] e@[k].0, m@[k].0@)
                    && imports(m@[k].1, e@[k].1),
        decreases m@.len() - i,
    {
        let value = match value_from_json(&m[i].1) {
            Ok(v) => v,
            Err(err) => {
                assert(too_long(m@[i as int].1));
                return Err(err);
            },
        };
        let key = LuaKey::String(m[i].0.clone());
        let ghost before = e@;
        e.push((key, value));
        assert forall|k: int| 0 <= k < i implies e@[k] == before[k] by {}
        i += 1;
    }
    Ok(e)
}

/// The Lua form of a JSON value.
fn value_from_json(j: &JsonValue) -> (r: Result<LuaValue, BridgeError>)
    ensures
        match r {
            Ok(v) => imports(*j, v),
            Err(err) => err == BridgeError::IndexTooLarge && too_long(*j),
        },
    decreases j,
{
    match j {
        JsonValue::Null => Ok(LuaValue::Nil),
        JsonValue::Bool(b) => Ok(LuaValue::Boolean(*b)),
        JsonValue::Number(b) => Ok(LuaValue::Number(*b)),
        JsonValue::String(s) => Ok(LuaValue::String(s.clone())),
        JsonValue::Array(items) => index_entries(items),
        JsonValue::Object(m) => match member_entries(m) {
            Ok(e) => Ok(LuaValue::Table(e)),
            Err(err) => Err(err),
        },
    }
}

impl LuaState {
    /// The state whose top-level table holds the members of a JSON object,
    /// keyed by their names, in order.
    pub fn from_json(json: &Vec<(String, JsonValue)>) -> (r: Result<LuaState, BridgeError>)
        ensures
            match r {
                Ok(st) => imports_members(json@, st.0@),
                Err(err) => err == BridgeError::IndexTooLarge && exists|i: int|
                    0 <= i < json@.len() && too_long(#[trigger] json@[i].1),
            },
    {
        match member_entries(json) {
            Ok(e) => Ok(LuaState(e)),
            Err(err) => Err(err),
        }
    }
}

/// A value that has a JSON form meets no error on the way there, so the
/// export of a value either succeeds or fails, depending on the value alone.
pub proof fn lemma_exports_excludes_failure(v: LuaValue, j: JsonValue, err: BridgeError)
    requires
        exports(v, j),
    ensures
        !fails_with(v, err),
    decreases v,
{
    if let LuaValue::Table(e) = v {
        assert forall|i: int| 0 <= i < e.len() implies !fails_with(#[trigger] e@[i].1, err) by {
            vstd::std_specs::vec::axiom_vec_index_decreases(e, i);
            if is_array(e@) {
                lemma_exports_excludes_failure(e@[i].1, j->Array_0@[i], err);
            } else {
                lemma_exports_excludes_failure(e@[i].1, j->Object_0@[i].1, err);
            }
        }
        if !is_array(e@) {
            assert forall|i: int| 0 <= i < e.len() implies #[trigger] key_text(e@[i].0) is Some by {
                assert(exports(e@[i].1, j->Object_0@[i].1));
            }
        }
    }
}

/// Entries that have a JSON object form meet no error on the way there.
pub proof fn lemma_members_exclude_failure(
    e: Seq<(LuaKey, LuaValue)>,
    m: Seq<(String, JsonValue)>,
    err: BridgeError,
)
    requires
        exports_members(e, m),
    ensures
        !members_fail_with(e, err),
{
    assert forall|i: int| 0 <= i < e.len() implies !fails_with(#[trigger] e[i].1, err) by {
        assert(key_text(e[i].0) == Some(m[i].0@));
        lemma_exports_excludes_failure(e[i].1, m[i].1, err);
    }
    assert forall|i: int| 0 <= i < e.len() implies #[trigger] key_text(e[i].0) is Some by {}
}

} // verus!
