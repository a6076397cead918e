//! The store: frames under text keys, and frames under the fields of text
//! keys.
//!
//! The two containers are concurrent hash maps. The store is written through
//! an exclusive reference, so that what it holds after a call is what it held
//! before, with the change that the call made.

use crate::resp::frame::{entries_view, Frame, RespFrame};
use crate::resp::mapping::content;
use dashmap::DashMap;
use vstd::prelude::*;

verus! {

/// `dashmap::DashMap`, a concurrent hash map. What a map holds is told by
/// [`flat_entries`] and [`nested_entries`] only.
#[verifier::external_type_specification]
#[verifier::external_body]
#[verifier::reject_recursive_types(K)]
#[verifier::reject_recursive_types(V)]
#[verifier::reject_recursive_types(S)]
pub struct ExDashMap<K, V, S>(DashMap<K, V, S>);

/// What a map of frames holds: the value of the frame under each key.
pub uninterp spec fn flat_entries(m: DashMap<String, RespFrame>) -> Map<Seq<char>, Frame>;

/// What a map of maps holds: under each key, what the map under it holds.
pub uninterp spec fn nested_entries(m: DashMap<String, DashMap<String, RespFrame>>) -> Map<
    Seq<char>,
    Map<Seq<char>, Frame>,
>;

/// What the store holds.
pub struct BackendState {
    /// The frame under each key.
    pub flat: Map<Seq<char>, Frame>,
    /// The frame under each field of each key.
    pub nested: Map<Seq<char>, Map<Seq<char>, Frame>>,
}

/// The store.
pub struct Backend {
    map: DashMap<String, RespFrame>,
    hmap: DashMap<String, DashMap<String, RespFrame>>,
}

/// Whether `entries` lists what `held` holds: each key once, with its value.
pub open spec fn lists(entries: Seq<(Seq<char>, Frame)>, held: Map<Seq<char>, Frame>) -> bool {
    &&& forall|i: int, j: int|
        0 <= i < j < entries.len() ==> (#[trigger] entries[i]).0 != (#[trigger] entries[j]).0
    &&& content(entries) == held
}

/// The fields under `key`, where nothing under a key is no field.
pub open spec fn fields_of(nested: Map<Seq<char>, Map<Seq<char>, Frame>>, key: Seq<char>) -> Map<
    Seq<char>,
    Frame,
> {
    if nested.contains_key(key) {
        nested[key]
    } else {
        Map::empty()
    }
}

/// `DashMap::new` makes a map that holds nothing.
#[verifier::external_body]
fn flat_new() -> (m: DashMap<String, RespFrame>)
    ensures
        flat_entries(m) =~= Map::empty(),
{
    DashMap::new()
}

/// `DashMap::new` makes a map that holds nothing.
#[verifier::external_body]
fn nested_new() -> (m: DashMap<String, DashMap<String, RespFrame>>)
    ensures
        nested_entries(m) =~= Map::empty(),
{
    DashMap::new()
}

/// `DashMap::get` finds the entry of `key`, if the map has one; the frame
/// that is handed out is a copy of the one in the map.
#[verifier::external_body]
fn flat_get(m: &DashMap<String, RespFrame>, key: &str) -> (r: Option<RespFrame>)
    ensures
        match r {
            Some(v) => flat_entries(*m).contains_key(key@) && v@ == flat_entries(*m)[key@],
            None => !flat_entries(*m).contains_key(key@),
        },
{
    m.get(key).map(|v| v.value().clone())
}

/// `DashMap::insert` puts `value` under `key`, in place of what was there,
/// and leaves the other entries as they were.
#[verifier::external_body]
fn flat_insert(m: &mut DashMap<String, RespFrame>, key: String, value: RespFrame)
    ensures
        flat_entries(*final(m)) == flat_entries(*old(m)).insert(key@, value@),
{
    m.insert(key, value);
}

/// `DashMap::get` on the outer map and then on the map that it finds: the
/// frame under `field` of `key`, if both are there, as a copy.
#[verifier::external_body]
fn nested_get(m: &DashMap<String, DashMap<String, RespFrame>>, key: &str, field: &str) -> (r:
    Option<RespFrame>)
    ensures
        match r {
            Some(v) => {
                &&& nested_entries(*m).contains_key(key@)
                &&& nested_entries(*m)[key@].contains_key(field@)
                &&& v@ == nested_entries(*m)[key@][field@]
            },
            None => !(nested_entries(*m).contains_key(key@) && nested_entries(
                *m,
            )[key@].contains_key(field@)),
        },
{
    m.get(key).and_then(|inner| inner.get(field).map(|v| v.value().clone()))
}

/// `DashMap::entry` with `or_default` finds the map under `key`, or puts an
/// empty one there, and `DashMap::insert` on it puts `value` under `field`.
/// The other keys, and the other fields of `key`, stay as they were.
#[verifier::external_body]
fn nested_insert(
    m: &mut DashMap<String, DashMap<String, RespFrame>>,
    key: String,
    field: String,
    value: RespFrame,
)
    ensures
        nested_entries(*final(m)) == nested_entries(*old(m)).insert(
            key@,
            fields_of(nested_entries(*old(m)), key@).insert(field@, value@),
        ),
{
    m.entry(key).or_default().insert(field, value);
}

/// `DashMap::get` on the outer map and `DashMap::iter` on the map that it
/// finds: every entry of that map once, as copies, in an order that the
/// hasher decides.
#[verifier::external_body]
fn nested_list(m: &DashMap<String, DashMap<String, RespFrame>>, key: &str) -> (r: Option<
    Vec<(String, RespFrame)>,
>)
    ensures
        match r {
            Some(list) => nested_entries(*m).contains_key(key@) && lists(
                entries_view(list@),
                nested_entries(*m)[key@],
            ),
            None => !nested_entries(*m).contains_key(key@),
        },
{
    m.get(key).map(|inner| inner.iter().map(|e| (e.key().clone(), e.value().clone())).collect())
}

impl View for Backend {
    type V = BackendState;

    closed spec fn view(&self) -> BackendState {
        BackendState { flat: flat_entries(self.map), nested: nested_entries(self.hmap) }
    }
}

impl Backend {
    /// A store that holds nothing.
    pub fn new() -> (r: Self)
        ensures
            r@.flat == Map::<Seq<char>, Frame>::empty(),
            r@.nested == Map::<Seq<char>, Map<Seq<char>, Frame>>::empty(),
    {
        Backend { map: flat_new(), hmap: nested_new() }
    }

    /// The frame under `key`, if there is one.
    pub fn get(&self, key: &str) -> (r: Option<RespFrame>)
        ensures
            match r {
                Some(v) => self@.flat.contains_key(key@) && v@ == self@.flat[key@],
                None => !self@.flat.contains_key(key@),
            },
    {
        flat_get(&self.map, key)
    }

    /// Puts `value` under `key`.
    pub fn set(&mut self, key: String, value: RespFrame)
        ensures
            final(self)@.flat == old(self)@.flat.insert(key@, value@),
            final(self)@.nested == old(self)@.nested,
    {
        flat_insert(&mut self.map, key, value);
    }

    /// The frame under `field` of `key`, if there is one.
    pub fn hget(&self, key: &str, field: &str) -> (r: Option<RespFrame>)
        ensures
            match r {
                Some(v) => self@.nested.contains_key(key@) && self@.nested[key@].contains_key(
                    field@,
                ) && v@ == self@.nested[key@][field@],
                None => !(self@.nested.contains_key(key@) && self@.nested[key@].contains_key(
                    field@,
                )),
            },
    {
        nested_get(&self.hmap, key, field)
    }

    /// Puts `value` under `field` of `key`. A key that had no field has this
    /// one from now on.
    pub fn hset(&mut self, key: String, field: String, value: RespFrame)
        ensures
            final(self)@.nested == old(self)@.nested.insert(
                key@,
                fields_of(old(self)@.nested, key@).insert(field@, value@),
            ),
            final(self)@.flat == old(self)@.flat,
    {
        nested_insert(&mut self.hmap, key, field, value);
    }

    /// The fields of `key` with their frames, each field once, in no
    /// particular order; nothing where the key has never had a field.
    pub fn hgetall(&self, key: &str) -> (r: Option<Vec<(String, RespFrame)>>)
        ensures
            match r {
                Some(list) => self@.nested.contains_key(key@) && lists(
                    entries_view(list@),
                    self@.nested[key@],
                ),
                None => !self@.nested.contains_key(key@),
            },
    {
        nested_list(&self.hmap, key)
    }
}

impl Default for Backend {
    fn default() -> (r: Self)
        ensures
            r@.flat == Map::<Seq<char>, Frame>::empty(),
            r@.nested == Map::<Seq<char>, Map<Seq<char>, Frame>>::empty(),
    {
        Backend::new()
    }
}

} // verus!
