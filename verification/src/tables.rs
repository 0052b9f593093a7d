use vstd::prelude::*;
use crate::prefabs::Prefab;
use crate::server::connection::Connection;

verus! {

/// A hash table from attribute names to 16-bit values, backed by `hashbrown::HashMap`.
#[verifier::external_body]
pub struct AttrMap {
    map: hashbrown::HashMap<String, u16>,
}

/// What an `AttrMap` holds: each attribute name, as characters, with its value.
pub uninterp spec fn attr_entries(m: AttrMap) -> Map<Seq<char>, u16>;

impl View for AttrMap {
    type V = Map<Seq<char>, u16>;

    open spec fn view(&self) -> Map<Seq<char>, u16> {
        attr_entries(*self)
    }
}

/// `hashbrown::HashMap::new`: the new table holds nothing.
#[verifier::external_body]
fn attr_map_new() -> (r: AttrMap)
    ensures
        attr_entries(r).dom() == Set::<Seq<char>>::empty(),
        attr_entries(r).dom().finite(),
{
    AttrMap { map: hashbrown::HashMap::new() }
}

/// `hashbrown::HashMap::insert`: afterwards the key maps to the value, and every
/// other key is as before (the displaced value is dropped).
#[verifier::external_body]
fn attr_map_insert(m: &mut AttrMap, key: String, value: u16)
    ensures
        attr_entries(*final(m)) == attr_entries(*old(m)).insert(key@, value),
        attr_entries(*final(m)).dom().finite(),
{
    m.map.insert(key, value);
}

/// `hashbrown::HashMap::get`, with the value copied out: `Some` of the value stored
/// under the key, or `None` where the key is absent.
#[verifier::external_body]
fn attr_map_get(m: &AttrMap, key: &String) -> (r: Option<u16>)
    ensures
        r == (if attr_entries(*m).contains_key(key@) {
            Some(attr_entries(*m)[key@])
        } else {
            None::<u16>
        }),
{
    m.map.get(key).copied()
}

/// `hashbrown::HashMap::len`: the number of keys stored.
#[verifier::external_body]
fn attr_map_len(m: &AttrMap) -> (r: usize)
    ensures
        r == attr_entries(*m).len(),
{
    m.map.len()
}

impl AttrMap {
    /// An empty table.
    pub fn new() -> (r: AttrMap)
        ensures
            r@ == Map::<Seq<char>, u16>::empty(),
            r@.dom().finite(),
    {
        let r = attr_map_new();
        assert(r@ =~= Map::<Seq<char>, u16>::empty());
        r
    }

    /// Stores `value` under `key`, replacing what was there.
    pub fn insert(&mut self, key: String, value: u16)
        ensures
            final(self)@ == old(self)@.insert(key@, value),
            final(self)@.dom().finite(),
    {
        attr_map_insert(self, key, value)
    }

    /// The value stored under `key`, if any.
    pub fn get(&self, key: &String) -> (r: Option<u16>)
        ensures
            r == (if self@.contains_key(key@) { Some(self@[key@]) } else { None::<u16> }),
    {
        attr_map_get(self, key)
    }

    /// The number of keys stored.
    pub fn len(&self) -> (r: usize)
        ensures
            r == self@.len(),
    {
        attr_map_len(self)
    }
}

/// A hash table from names to sizes, backed by `hashbrown::HashMap`.
#[verifier::external_body]
pub struct NameMap {
    map: hashbrown::HashMap<String, usize>,
}

/// What a `NameMap` holds: each name, as characters, with its size.
pub uninterp spec fn name_entries(m: NameMap) -> Map<Seq<char>, usize>;

impl View for NameMap {
    type V = Map<Seq<char>, usize>;

    open spec fn view(&self) -> Map<Seq<char>, usize> {
        name_entries(*self)
    }
}

/// The characters of each name in a list of (name, size) pairs, with its size.
pub open spec fn entries_view(v: Seq<(String, usize)>) -> Seq<(Seq<char>, usize)> {
    v.map_values(|e: (String, usize)| (e.0@, e.1))
}

/// `w` lists the entries of `m`, each once, in some order.
pub open spec fn is_walk_of(w: Seq<(Seq<char>, usize)>, m: Map<Seq<char>, usize>) -> bool {
    &&& forall|i: int| 0 <= i < w.len() ==> #[trigger] m.contains_key(w[i].0) && m[w[i].0] == w[i].1
    &&& forall|i: int, j: int| 0 <= i < j < w.len() ==> w[i].0 != w[j].0
    &&& forall|k: Seq<char>| #[trigger] m.contains_key(k) ==> exists|i: int| 0 <= i < w.len() && w[i].0 == k
}

/// `hashbrown::HashMap::new`: the new table holds nothing.
#[verifier::external_body]
fn name_map_new() -> (r: NameMap)
    ensures
        name_entries(r).dom() == Set::<Seq<char>>::empty(),
        name_entries(r).dom().finite(),
{
    NameMap { map: hashbrown::HashMap::new() }
}

/// `hashbrown::HashMap::insert`: afterwards the key maps to the value, and every
/// other key is as before (the displaced value is dropped).
#[verifier::external_body]
fn name_map_insert(m: &mut NameMap, key: String, value: usize)
    ensures
        name_entries(*final(m)) == name_entries(*old(m)).insert(key@, value),
        name_entries(*final(m)).dom().finite(),
{
    m.map.insert(key, value);
}

/// `hashbrown::HashMap::extend`: every entry of `other` is inserted, replacing the
/// value of a key that was already there.
#[verifier::external_body]
fn name_map_extend(m: &mut NameMap, other: NameMap)
    ensures
        name_entries(*final(m)) == name_entries(*old(m)).union_prefer_right(name_entries(other)),
        name_entries(*final(m)).dom().finite(),
{
    m.map.extend(other.map);
}

/// `hashbrown::HashMap::get`, with the value copied out: `Some` of the value stored
/// under the key, or `None` where the key is absent.
#[verifier::external_body]
fn name_map_get(m: &NameMap, key: &String) -> (r: Option<usize>)
    ensures
        r == (if name_entries(*m).contains_key(key@) {
            Some(name_entries(*m)[key@])
        } else {
            None::<usize>
        }),
{
    m.map.get(key).copied()
}

/// `hashbrown::HashMap::contains_key`: whether the key is stored.
#[verifier::external_body]
fn name_map_contains_key(m: &NameMap, key: &String) -> (r: bool)
    ensures
        r == name_entries(*m).contains_key(key@),
{
    m.map.contains_key(key)
}

/// `hashbrown::HashMap::len`: the number of keys stored.
#[verifier::external_body]
fn name_map_len(m: &NameMap) -> (r: usize)
    ensures
        r == name_entries(*m).len(),
{
    m.map.len()
}

/// `hashbrown::HashMap::iter`, each entry copied out: every entry once, in the order
/// in which the table is walked. That order is left open: it follows the table's
/// hasher, which each table seeds anew.
#[verifier::external_body]
fn name_map_walk(m: &NameMap) -> (r: Vec<(String, usize)>)
    ensures
        is_walk_of(entries_view(r@), name_entries(*m)),
{
    m.map.iter().map(|(k, b)| (k.clone(), *b)).collect()
}

impl NameMap {
    /// An empty table.
    pub fn new() -> (r: NameMap)
        ensures
            r@ == Map::<Seq<char>, usize>::empty(),
            r@.dom().finite(),
    {
        let r = name_map_new();
        assert(r@ =~= Map::<Seq<char>, usize>::empty());
        r
    }

    /// Stores `value` under `key`, replacing what was there.
    pub fn insert(&mut self, key: String, value: usize)
        ensures
            final(self)@ == old(self)@.insert(key@, value),
            final(self)@.dom().finite(),
    {
        name_map_insert(self, key, value)
    }

    /// Moves every entry of `other` into this table; an entry of `other` wins over
    /// one with the same key here.
    pub fn extend(&mut self, other: NameMap)
        ensures
            final(self)@ == old(self)@.union_prefer_right(other@),
            final(self)@.dom().finite(),
    {
        name_map_extend(self, other)
    }

    /// The value stored under `key`, if any.
    pub fn get(&self, key: &String) -> (r: Option<usize>)
        ensures
            r == (if self@.contains_key(key@) { Some(self@[key@]) } else { None::<usize> }),
    {
        name_map_get(self, key)
    }

    /// Whether `key` is stored.
    pub fn contains_key(&self, key: &String) -> (r: bool)
        ensures
            r == self@.contains_key(key@),
    {
        name_map_contains_key(self, key)
    }

    /// The number of keys stored.
    pub fn len(&self) -> (r: usize)
        ensures
            r == self@.len(),
    {
        name_map_len(self)
    }

    /// Every entry once, in the order in which the table is walked.
    pub fn entries(&self) -> (r: Vec<(String, usize)>)
        ensures
            is_walk_of(entries_view(r@), self@),
    {
        name_map_walk(self)
    }
}

/// A hash table from world addresses to the entities placed there, backed by
/// `hashbrown::HashMap`.
#[verifier::external_body]
pub struct PlayerMap {
    map: hashbrown::HashMap<u16, Prefab>,
}

/// What a `PlayerMap` holds: each address with the entity placed there.
pub uninterp spec fn player_entries(m: PlayerMap) -> Map<u16, Prefab>;

impl View for PlayerMap {
    type V = Map<u16, Prefab>;

    open spec fn view(&self) -> Map<u16, Prefab> {
        player_entries(*self)
    }
}

/// `hashbrown::HashMap::new`: the new table holds nothing.
#[verifier::external_body]
fn player_map_new() -> (r: PlayerMap)
    ensures
        player_entries(r).dom() == Set::<u16>::empty(),
        player_entries(r).dom().finite(),
{
    PlayerMap { map: hashbrown::HashMap::new() }
}

/// `hashbrown::HashMap::insert`: afterwards the key maps to the value, and every
/// other key is as before (the displaced value is dropped).
#[verifier::external_body]
fn player_map_insert(m: &mut PlayerMap, key: u16, value: Prefab)
    ensures
        player_entries(*final(m)) == player_entries(*old(m)).insert(key, value),
        player_entries(*final(m)).dom().finite(),
{
    m.map.insert(key, value);
}

impl PlayerMap {
    /// An empty table.
    pub fn new() -> (r: PlayerMap)
        ensures
            r@ == Map::<u16, Prefab>::empty(),
            r@.dom().finite(),
    {
        let r = player_map_new();
        assert(r@ =~= Map::<u16, Prefab>::empty());
        r
    }

    /// Places `value` at `key`, replacing what was there.
    pub fn insert(&mut self, key: u16, value: Prefab)
        ensures
            final(self)@ == old(self)@.insert(key, value),
            final(self)@.dom().finite(),
    {
        player_map_insert(self, key, value)
    }
}

/// A hash table from connection identifiers to connections, backed by
/// `hashbrown::HashMap`.
#[verifier::external_body]
pub struct ConnectionTable {
    map: hashbrown::HashMap<u128, Connection>,
}

/// What a `ConnectionTable` holds: each identifier with its connection.
pub uninterp spec fn connection_entries(m: ConnectionTable) -> Map<u128, Connection>;

impl View for ConnectionTable {
    type V = Map<u128, Connection>;

    open spec fn view(&self) -> Map<u128, Connection> {
        connection_entries(*self)
    }
}

/// `hashbrown::HashMap::new`: the new table holds nothing.
#[verifier::external_body]
fn connection_table_new() -> (r: ConnectionTable)
    ensures
        connection_entries(r).dom() == Set::<u128>::empty(),
        connection_entries(r).dom().finite(),
{
    ConnectionTable { map: hashbrown::HashMap::new() }
}

/// `hashbrown::HashMap::insert`: afterwards the key maps to the value, and every
/// other key is as before (the displaced value is dropped).
#[verifier::external_body]
fn connection_table_insert(m: &mut ConnectionTable, key: u128, value: Connection)
    ensures
        connection_entries(*final(m)) == connection_entries(*old(m)).insert(key, value),
        connection_entries(*final(m)).dom().finite(),
{
    m.map.insert(key, value);
}

/// `hashbrown::HashMap::get`: the value stored under the key, or `None` where the
/// key is absent.
#[verifier::external_body]
fn connection_table_get<'a>(m: &'a ConnectionTable, key: &u128) -> (r: Option<&'a Connection>)
    ensures
        r is Some == connection_entries(*m).contains_key(*key),
        r matches Some(c) ==> *c == connection_entries(*m)[*key],
{
    m.map.get(key)
}

impl ConnectionTable {
    /// An empty table.
    pub fn new() -> (r: ConnectionTable)
        ensures
            r@ == Map::<u128, Connection>::empty(),
            r@.dom().finite(),
    {
        let r = connection_table_new();
        assert(r@ =~= Map::<u128, Connection>::empty());
        r
    }

    /// Stores `value` under `key`, replacing what was there.
    pub fn insert(&mut self, key: u128, value: Connection)
        ensures
            final(self)@ == old(self)@.insert(key, value),
            final(self)@.dom().finite(),
    {
        connection_table_insert(self, key, value)
    }

    /// The connection stored under `key`, if any.
    pub fn get(&self, key: &u128) -> (r: Option<&Connection>)
        ensures
            r is Some == self@.contains_key(*key),
            r matches Some(c) ==> *c == self@[*key],
    {
        connection_table_get(self, key)
    }
}

} // verus!
