//! The replication offsets: for each peer URL, how many log entries the peer
//! has acknowledged; and their file form, a JSON object.

use std::collections::HashMap;

use dashmap::DashMap;
use vstd::prelude::*;

use crate::table::{has_key, keys_distinct, lemma_map_of_push, map_of};

verus! {

#[verifier::external_type_specification]
#[verifier::external_body]
#[verifier::reject_recursive_types(K)]
#[verifier::reject_recursive_types(V)]
#[verifier::reject_recursive_types(S)]
pub struct ExDashMap<K, V, S>(DashMap<K, V, S>);

/// A concurrent map from peer URL to acknowledged entry count.
pub type OffsetMap = DashMap<String, usize>;

/// What a `DashMap` of offsets holds: peer URL to acknowledged entry count.
pub uninterp spec fn dashmap_offsets(m: OffsetMap) -> Map<Seq<char>, usize>;

/// An empty map (`DashMap::new`).
/// Trusted: it holds nothing.
#[verifier::external_body]
fn dashmap_new() -> (created: OffsetMap)
    ensures
        dashmap_offsets(created).dom() == Set::<Seq<char>>::empty(),
{
    DashMap::new()
}

/// Sets `peer`'s offset (`DashMap::insert`).
/// Trusted: the map afterwards is the map before with `peer` set to `offset`.
#[verifier::external_body]
fn dashmap_insert(m: &mut OffsetMap, peer: String, offset: usize)
    ensures
        dashmap_offsets(*final(m)) == dashmap_offsets(*old(m)).insert(peer@, offset),
{
    m.insert(peer, offset);
}

/// Looks up `peer`'s offset (`DashMap::get`).
/// Trusted: the value held for `peer`, or `None` when it holds none.
#[verifier::external_body]
fn dashmap_get(m: &OffsetMap, peer: &str) -> (offset: Option<usize>)
    ensures
        match offset {
            Some(o) => dashmap_offsets(*m).contains_key(peer@) && dashmap_offsets(*m)[peer@] == o,
            None => !dashmap_offsets(*m).contains_key(peer@),
        },
{
    m.get(peer).map(|entry| *entry)
}

/// Every entry of the map (`DashMap::iter`), in the map's own order.
/// Trusted: each peer once, with its offset; the order is not stated.
#[verifier::external_body]
fn dashmap_entries(m: &OffsetMap) -> (pairs: Vec<(String, usize)>)
    ensures
        keys_distinct(pairs.deep_view()),
        map_of(pairs.deep_view()) == dashmap_offsets(*m),
{
    m.iter().map(|entry| (entry.key().clone(), *entry.value())).collect()
}

/// The offsets each peer has acknowledged.
pub struct OffsetTable {
    map: OffsetMap,
}

impl OffsetTable {
    /// Peer URL to acknowledged entry count.
    pub closed spec fn view(&self) -> Map<Seq<char>, usize> {
        dashmap_offsets(self.map)
    }

    /// A table with no peer.
    pub fn new() -> (t: Self)
        ensures
            t@ == Map::<Seq<char>, usize>::empty(),
    {
        let t = OffsetTable { map: dashmap_new() };
        assert(t@ =~= Map::<Seq<char>, usize>::empty());
        t
    }

    /// The offset recorded for `peer`, if any.
    pub fn get(&self, peer: &str) -> (offset: Option<usize>)
        ensures
            match offset {
                Some(o) => self@.contains_key(peer@) && self@[peer@] == o,
                None => !self@.contains_key(peer@),
            },
    {
        dashmap_get(&self.map, peer)
    }

    /// Records `offset` for `peer`, replacing any earlier one.
    pub fn insert(&mut self, peer: String, offset: usize)
        ensures
            final(self)@ == old(self)@.insert(peer@, offset),
    {
        dashmap_insert(&mut self.map, peer, offset);
    }

    /// Every `(peer, offset)` entry, each peer once.
    pub fn entries(&self) -> (pairs: Vec<(String, usize)>)
        ensures
            keys_distinct(pairs.deep_view()),
            map_of(pairs.deep_view()) == self@,
    {
        dashmap_entries(&self.map)
    }
}

/// The offsets held by a table read back from `pairs`, each pair overriding
/// any earlier one for the same peer.
pub open spec fn offsets_from_pairs(pairs: Seq<(Seq<char>, usize)>) -> Map<Seq<char>, usize>
    decreases pairs.len(),
{
    if pairs.len() == 0 {
        Map::empty()
    } else {
        offsets_from_pairs(pairs.drop_last()).insert(pairs.last().0, pairs.last().1)
    }
}

/// Builds the offset table from saved `(peer, offset)` pairs.
pub fn offsets_from_saved(pairs: Vec<(String, usize)>) -> (offsets: OffsetTable)
    ensures
        offsets@ == offsets_from_pairs(pairs.deep_view()),
{
    let ghost all = pairs.deep_view();
    let mut offsets = OffsetTable::new();
    for entry in iter: pairs
        invariant
            all.len() == iter.seq().len(),
            forall|j: int| 0 <= j < all.len() ==> #[trigger] all[j] == iter.seq()[j].deep_view(),
            offsets@ == offsets_from_pairs(all.take(iter.index())),
    {
        let ghost k = iter.index();
        assert(entry == iter.seq()[k]);
        let (peer, offset) = entry;
        assert(all[k] == (peer@, offset));
        offsets.insert(peer, offset);
        proof {
            assert(all.take(k + 1).drop_last() =~= all.take(k));
        }
    }
    proof {
        assert(all.take(all.len() as int) =~= all);
    }
    offsets
}

/// The saved form of the offsets: every `(peer, offset)` entry, each peer once.
pub fn saved_offsets(offsets: &OffsetTable) -> (pairs: Vec<(String, usize)>)
    ensures
        map_of(pairs.deep_view()) == offsets@,
        keys_distinct(pairs.deep_view()),
{
    offsets.entries()
}

/// Saving the offsets and reading the saved pairs back restores them: for
/// pairs with distinct peers, reading them back gives the map they describe.
pub proof fn lemma_saved_offsets_reload(pairs: Seq<(Seq<char>, usize)>)
    requires
        keys_distinct(pairs),
    ensures
        offsets_from_pairs(pairs) == map_of(pairs),
    decreases pairs.len(),
{
    if pairs.len() == 0 {
        assert(map_of(pairs) =~= Map::<Seq<char>, usize>::empty());
    } else {
        let init = pairs.drop_last();
        assert(keys_distinct(init)) by {
            assert forall|i: int, j: int|
                0 <= i < init.len() && 0 <= j < init.len() && #[trigger] init[i].0 == #[trigger] init[j].0 implies i == j by {
                assert(init[i] == pairs[i]);
                assert(init[j] == pairs[j]);
            }
        }
        assert(!has_key(init, pairs.last().0)) by {
            if has_key(init, pairs.last().0) {
                let i = choose|i: int| 0 <= i < init.len() && #[trigger] init[i].0 == pairs.last().0;
                assert(pairs[i].0 == pairs[pairs.len() - 1].0);
            }
        }
        lemma_saved_offsets_reload(init);
        lemma_map_of_push(init, pairs.last().0, pairs.last().1);
        assert(init.push(pairs.last()) =~= pairs);
    }
}

/// The offsets that `serde_json::from_str::<HashMap<String, usize>>` reads from
/// `text`, or `None` where it rejects the text.
pub uninterp spec fn saved_offsets_json(text: Seq<char>) -> Option<Map<Seq<char>, usize>>;

/// Reads an offsets file's text with `serde_json::from_str` into a
/// `HashMap<String, usize>`.
/// Trusted: the pairs are the entries of the map read (each peer once), and
/// the map is `saved_offsets_json(text@)`, a function of the text alone.
#[verifier::external_body]
fn parse_saved_offsets(text: &str) -> (pairs: Option<Vec<(String, usize)>>)
    ensures
        match pairs {
            Some(p) => keys_distinct(p.deep_view()) && saved_offsets_json(text@) == Some(map_of(p.deep_view())),
            None => saved_offsets_json(text@) is None,
        },
{
    match serde_json::from_str::<HashMap<String, usize>>(text) {
        Ok(m) => Some(m.into_iter().collect()),
        Err(_) => None,
    }
}

/// Writes `(peer, offset)` pairs as a JSON object with
/// `serde_json::to_string_pretty` of a `HashMap<String, usize>`, which cannot
/// fail for string keys and integer values.
/// Trusted: reading the text back with `serde_json::from_str` gives the map
/// the pairs describe. The order of the members in the text is the hash
/// map's and is not stated.
#[verifier::external_body]
fn render_saved_offsets(pairs: &Vec<(String, usize)>) -> (text: String)
    requires
        keys_distinct(pairs.deep_view()),
    ensures
        saved_offsets_json(text@) == Some(map_of(pairs.deep_view())),
{
    serde_json::to_string_pretty(&pairs.iter().cloned().collect::<HashMap<String, usize>>()).unwrap()
}

/// The offsets an offsets file's text holds: what it reads as, or none when it
/// is not a JSON object of counts.
pub open spec fn offsets_in_text(text: Seq<char>) -> Map<Seq<char>, usize> {
    match saved_offsets_json(text) {
        Some(m) => m,
        None => Map::empty(),
    }
}

/// Builds the offset table from an offsets file's text (empty when the text is
/// not a JSON object of counts, as when the file is missing).
pub fn offsets_from_text(text: &str) -> (offsets: OffsetTable)
    ensures
        offsets@ == offsets_in_text(text@),
{
    match parse_saved_offsets(text) {
        Some(pairs) => {
            proof {
                lemma_saved_offsets_reload(pairs.deep_view());
            }
            offsets_from_saved(pairs)
        },
        None => OffsetTable::new(),
    }
}

/// The text of the offsets file for `offsets`: a JSON object that reads back
/// as the same offsets.
pub fn offsets_file_text(offsets: &OffsetTable) -> (text: String)
    ensures
        saved_offsets_json(text@) == Some(offsets@),
{
    let pairs = saved_offsets(offsets);
    render_saved_offsets(&pairs)
}

/// Writing the offsets file and reading it back restores the offsets.
pub proof fn lemma_offsets_file_round_trip(offsets: Map<Seq<char>, usize>, text: Seq<char>)
    requires
        saved_offsets_json(text) == Some(offsets),
    ensures
        offsets_in_text(text) == offsets,
{
}

} // verus!
