//! The decoded Lua state: a tree of Lua values, and the accessor that reads
//! and replaces a value by a path of string keys.
use vstd::prelude::*;
use crate::number::{index_bits, int_bits, number_to_u32, trunc_u32};

verus! {

/// A table key. A number key keeps the bits of its double and its decimal text.
#[derive(Debug)]
pub enum LuaKey {
    Boolean(bool),
    Number { bits: u64, text: String },
    String(String),
    Table(Vec<(LuaKey, LuaValue)>),
}

/// A Lua value. A number is held as the bits of its double.
#[derive(Debug)]
pub enum LuaValue {
    Nil,
    Boolean(bool),
    Number(u64),
    String(String),
    Table(Vec<(LuaKey, LuaValue)>),
}

/// The top-level table of a save's Lua state.
#[derive(Debug)]
pub struct LuaState(pub Vec<(LuaKey, LuaValue)>);

/// Whether `k` is the string key `s`.
pub open spec fn is_string_key(k: LuaKey, s: Seq<char>) -> bool {
    k matches LuaKey::String(t) && t@ == s
}

/// Where the first entry from `from` on with string key `s` stands.
pub open spec fn first_with_key(e: Seq<(LuaKey, LuaValue)>, s: Seq<char>, from: int) -> Option<int>
    decreases e.len() - from,
{
    if from < 0 || from >= e.len() {
        None
    } else if is_string_key(e[from].0, s) {
        Some(from)
    } else {
        first_with_key(e, s, from + 1)
    }
}

/// The value that `path` leads to: each segment but the last picks the first
/// entry with that string key, which must be a table; the last picks the first
/// entry with that key, whatever its value.
pub open spec fn spec_find(e: Seq<(LuaKey, LuaValue)>, path: Seq<Seq<char>>) -> Option<LuaValue>
    decreases path.len(),
{
    if path.len() == 0 {
        None
    } else {
        match first_with_key(e, path[0], 0) {
            None => None,
            Some(j) => if path.len() == 1 {
                Some(e[j].1)
            } else {
                match e[j].1 {
                    LuaValue::Table(t) => spec_find(t@, path.drop_first()),
                    _ => None,
                }
            },
        }
    }
}

/// `n` is `e` with the value that `path` leads to replaced by `v`, keys and
/// everything else unchanged.
pub open spec fn replaced(
    e: Seq<(LuaKey, LuaValue)>,
    n: Seq<(LuaKey, LuaValue)>,
    path: Seq<Seq<char>>,
    v: LuaValue,
) -> bool
    decreases path.len(),
{
    path.len() > 0 && match first_with_key(e, path[0], 0) {
        None => false,
        Some(j) => {
            &&& n.len() == e.len()
            &&& forall|k: int| 0 <= k < e.len() && k != j ==> #[trigger] n[k] == e[k]
            &&& n[j].0 == e[j].0
            &&& if path.len() == 1 {
                n[j].1 == v
            } else {
                e[j].1 matches LuaValue::Table(t) && n[j].1 matches LuaValue::Table(u)
                    && replaced(t@, u@, path.drop_first(), v)
            }
        },
    }
}

/// The texts of a path.
pub open spec fn path_texts(path: Seq<String>) -> Seq<Seq<char>> {
    path.map_values(|s: String| s@)
}

fn first_index(e: &Vec<(LuaKey, LuaValue)>, s: &String) -> (r: Option<usize>)
    ensures
        r matches Some(j) ==> j < e@.len() && first_with_key(e@, s@, 0) == Some(j as int),
        r is None ==> first_with_key(e@, s@, 0) is None,
{
    let mut i: usize = 0;
    while i < e.len()
        invariant
            i <= e@.len(),
            first_with_key(e@, s@, 0) == first_with_key(e@, s@, i as int),
        decreases e@.len() - i,
    {
        let hit = match &e[i].0 {
            LuaKey::String(t) => String::eq(t, s),
            _ => false,
        };
        assert(hit == is_string_key(e@[i as int].0, s@));
        if hit {
            return Some(i);
        }
        i += 1;
    }
    None
}

fn find_in<'a>(e: &'a Vec<(LuaKey, LuaValue)>, path: &[String], depth: usize) -> (r: Option<
    &'a LuaValue,
>)
    requires
        depth <= path@.len(),
    ensures
        r matches Some(v) ==> spec_find(e@, path_texts(path@).skip(depth as int)) == Some(*v),
        r is None ==> spec_find(e@, path_texts(path@).skip(depth as int)) is None,
    decreases path@.len() - depth,
{
    let ghost rest = path_texts(path@).skip(depth as int);
    if depth == path.len() {
        return None;
    }
    assert(rest[0] == path@[depth as int]@);
    match first_index(e, &path[depth]) {
        None => None,
        Some(j) => {
            if depth + 1 == path.len() {
                Some(&e[j].1)
            } else {
                assert(rest.drop_first() =~= path_texts(path@).skip(depth + 1));
                match &e[j].1 {
                    LuaValue::Table(t) => find_in(t, path, depth + 1),
                    _ => None,
                }
            }
        },
    }
}

fn replace_in(e: &mut Vec<(LuaKey, LuaValue)>, path: &[String], depth: usize, v: LuaValue)
    requires
        depth <= path@.len(),
        spec_find(old(e)@, path_texts(path@).skip(depth as int)) is Some,
    ensures
        replaced(old(e)@, final(e)@, path_texts(path@).skip(depth as int), v),
    decreases path@.len() - depth,
{
    let ghost rest = path_texts(path@).skip(depth as int);
    assert(rest[0] == path@[depth as int]@);
    if let Some(j) = first_index(e, &path[depth]) {
        let ghost before = e@;
        let (k, old_v) = e.remove(j);
        if depth + 1 == path.len() {
            e.insert(j, (k, v));
        } else {
            assert(rest.drop_first() =~= path_texts(path@).skip(depth + 1));
            if let LuaValue::Table(mut t) = old_v {
                replace_in(&mut t, path, depth + 1, v);
                e.insert(j, (k, LuaValue::Table(t)));
            }
        }
        assert forall|m: int| 0 <= m < before.len() && m != j implies #[trigger] e@[m]
            == before[m] by {}
    }
}

impl LuaState {
    /// The value that `path` leads to, if any.
    pub fn deep_find(&self, path: &[String]) -> (r: Option<&LuaValue>)
        ensures
            r matches Some(v) ==> spec_find(self.0@, path_texts(path@)) == Some(*v),
            r is None ==> spec_find(self.0@, path_texts(path@)) is None,
    {
        assert(path_texts(path@).skip(0) =~= path_texts(path@));
        find_in(&self.0, path, 0)
    }

    /// Replaces the value that `path` leads to by `v`; tells whether there was one.
    pub fn deep_replace(&mut self, path: &[String], v: LuaValue) -> (r: bool)
        ensures
            r == spec_find(old(self).0@, path_texts(path@)) is Some,
            r ==> replaced(old(self).0@, final(self).0@, path_texts(path@), v),
            !r ==> final(self).0@ == old(self).0@,
    {
        assert(path_texts(path@).skip(0) =~= path_texts(path@));
        if find_in(&self.0, path, 0).is_some() {
            replace_in(&mut self.0, path, 0, v);
            true
        } else {
            false
        }
    }
}

/// The path of the darkness count: `GameState.Resources.MetaPoints`.
pub open spec fn darkness_path() -> Seq<Seq<char>> {
    seq!["GameState"@, "Resources"@, "MetaPoints"@]
}

fn darkness_keys() -> (r: Vec<String>)
    ensures
        path_texts(r@) == darkness_path(),
{
    let mut v: Vec<String> = Vec::new();
    v.push("GameState".to_owned());
    v.push("Resources".to_owned());
    v.push("MetaPoints".to_owned());
    assert(path_texts(v@) =~= darkness_path());
    v
}

impl LuaState {
    /// The darkness count: the number at the darkness path, truncated into a
    /// `u32`; zero when the path leads to no number.
    pub fn darkness(&self) -> (r: u32)
        ensures
            r == (match spec_find(self.0@, darkness_path()) {
                Some(LuaValue::Number(b)) => trunc_u32(b),
                _ => 0,
            }),
    {
        let path = darkness_keys();
        match self.deep_find(path.as_slice()) {
            Some(LuaValue::Number(b)) => number_to_u32(*b),
            _ => 0,
        }
    }

    /// Sets the number at the darkness path to `darkness`; does nothing when
    /// the path leads to no number.
    pub fn set_darkness(&mut self, darkness: u32)
        ensures
            spec_find(old(self).0@, darkness_path()) matches Some(LuaValue::Number(_)) ==> replaced(
                old(self).0@,
                final(self).0@,
                darkness_path(),
                LuaValue::Number(int_bits(darkness as u64)),
            ),
            !(spec_find(old(self).0@, darkness_path()) matches Some(LuaValue::Number(_)))
                ==> final(self).0@ == old(self).0@,
    {
        let path = darkness_keys();
        let is_number = match self.deep_find(path.as_slice()) {
            Some(LuaValue::Number(_)) => true,
            _ => false,
        };
        if is_number {
            self.deep_replace(path.as_slice(), LuaValue::Number(index_bits(darkness as u64)));
        }
    }
}

} // verus!
