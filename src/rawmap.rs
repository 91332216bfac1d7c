//! A map from option keys to raws.
use vstd::prelude::*;
use crate::raw::Raw;
use crate::text::str_eq;

verus! {

/// The map that a list of entries gives: a later entry for a key replaces an
/// earlier one.
pub open spec fn map_of(e: Seq<(String, Raw)>) -> Map<Seq<char>, Seq<Seq<char>>>
    decreases e.len(),
{
    if e.len() == 0 {
        Map::empty()
    } else {
        map_of(e.drop_last()).insert(e.last().0@, e.last().1@)
    }
}

/// Option keys, short or long, with the raw bound to each.
#[derive(Debug, Clone)]
pub struct RawMap {
    pub entries: Vec<(String, Raw)>,
}

impl View for RawMap {
    type V = Map<Seq<char>, Seq<Seq<char>>>;

    open spec fn view(&self) -> Map<Seq<char>, Seq<Seq<char>>> {
        map_of(self.entries@)
    }
}

impl RawMap {
    pub fn new() -> (r: RawMap)
        ensures
            r@ == Map::<Seq<char>, Seq<Seq<char>>>::empty(),
    {
        RawMap { entries: Vec::new() }
    }

    /// Binds `key` to `raw`, replacing what it was bound to.
    pub fn insert(&mut self, key: String, raw: Raw)
        ensures
            final(self)@ == old(self)@.insert(key@, raw@),
    {
        let ghost e0 = self.entries@;
        self.entries.push((key, raw));
        assert(self.entries@.drop_last() =~= e0);
    }

    /// The position of the entry that decides `key`.
    fn position(&self, key: &str) -> (r: Option<usize>)
        ensures
            r is Some <==> self@.contains_key(key@),
            r is Some ==> r->0 < self.entries@.len() && self@[key@] == self.entries@[r->0 as int].1@,
    {
        let ghost e = self.entries@;
        let mut i: usize = self.entries.len();
        assert(e.take(i as int) =~= e);
        while i > 0
            invariant
                e == self.entries@,
                i <= e.len(),
                map_of(e).contains_key(key@) == map_of(e.take(i as int)).contains_key(key@),
                map_of(e).contains_key(key@) ==> map_of(e)[key@] == map_of(e.take(i as int))[key@],
            decreases i,
        {
            assert(e.take(i as int).drop_last() =~= e.take(i - 1));
            assert(e.take(i as int).last() == e[i - 1]);
            if str_eq(self.entries[i - 1].0.as_str(), key) {
                return Some(i - 1);
            }
            i = i - 1;
        }
        None
    }

    pub fn contains_key(&self, key: &str) -> (r: bool)
        ensures
            r == self@.contains_key(key@),
    {
        self.position(key).is_some()
    }

    /// A copy of the raw bound to `key`.
    pub fn get(&self, key: &str) -> (r: Option<Raw>)
        ensures
            r is Some <==> self@.contains_key(key@),
            r is Some ==> r->0@ == self@[key@],
    {
        match self.position(key) {
            Some(i) => Some(self.entries[i].1.duplicate()),
            None => None,
        }
    }
}

} // verus!
