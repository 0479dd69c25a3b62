//! A table of records, one for an identity at most, that keeps no record
//! which says nothing.

use crate::player::{PlayerRecord, RecordView};
use vstd::hash_map::StringHashMap;
use vstd::prelude::*;

verus! {

/// Records by identity.
///
/// The records lie in a list, in the order in which their identities came
/// in, and a hash map gives each identity's place in the list. No record in
/// the table is of kind `Player` without notes.
pub struct RecordTable {
    index: StringHashMap<usize>,
    records: Vec<PlayerRecord>,
}

/// Each identity in `index` leads to its record in `records`, each record is
/// found under its identity, and no record says nothing.
spec fn consistent(index: Map<Seq<char>, usize>, records: Seq<PlayerRecord>) -> bool {
    &&& forall|id: Seq<char>| #[trigger]
        index.contains_key(id) ==> index[id] < records.len() && records[index[id] as int].steamid@
            == id
    &&& forall|i: int|
        0 <= i < records.len() ==> index.contains_key((#[trigger] records[i]).steamid@)
            && index[records[i].steamid@] == i
    &&& forall|i: int| 0 <= i < records.len() ==> !(#[trigger] records[i])@.carries_nothing()
}

/// The records of `records` by identity.
spec fn by_identity(index: Map<Seq<char>, usize>, records: Seq<PlayerRecord>) -> Map<
    Seq<char>,
    RecordView,
> {
    Map::new(|id: Seq<char>| index.contains_key(id), |id: Seq<char>| records[index[id] as int]@)
}

fn put(index: &mut StringHashMap<usize>, records: &mut Vec<PlayerRecord>, record: PlayerRecord)
    requires
        consistent(old(index)@, old(records)@),
        !record@.carries_nothing(),
    ensures
        consistent(final(index)@, final(records)@),
        by_identity(final(index)@, final(records)@) == by_identity(
            old(index)@,
            old(records)@,
        ).insert(record@.steamid, record@),
{
    match index.get(record.steamid.as_str()) {
        Some(place) => {
            let place = *place;
            records[place] = record;
        },
        None => {
            let place = records.len();
            index.insert(record.steamid.clone(), place);
            records.push(record);
        },
    }
    proof {
        assert(by_identity(index@, records@) =~= by_identity(old(index)@, old(records)@).insert(
            record@.steamid,
            record@,
        ));
    }
}

fn take_out(index: &mut StringHashMap<usize>, records: &mut Vec<PlayerRecord>, steamid: &str)
    requires
        consistent(old(index)@, old(records)@),
    ensures
        consistent(final(index)@, final(records)@),
        by_identity(final(index)@, final(records)@) == by_identity(
            old(index)@,
            old(records)@,
        ).remove(steamid@),
{
    let place = match index.get(steamid) {
        Some(place) => *place,
        None => {
            proof {
                assert(by_identity(index@, records@) =~= by_identity(
                    old(index)@,
                    old(records)@,
                ).remove(steamid@));
            }
            return ;
        },
    };
    index.remove(steamid);
    let last = records.len() - 1;
    if place != last {
        index.insert(records[last].steamid.clone(), place);
    }
    records.swap_remove(place);
    proof {
        assert(by_identity(index@, records@) =~= by_identity(old(index)@, old(records)@).remove(
            steamid@,
        ));
    }
}

/// `list` holds the records of `table`, each once.
pub open spec fn lists_table(list: Seq<PlayerRecord>, table: Map<Seq<char>, RecordView>) -> bool {
    &&& forall|i: int|
        0 <= i < list.len() ==> table.contains_key((#[trigger] list[i])@.steamid)
            && table[list[i]@.steamid] == list[i]@
    &&& forall|id: Seq<char>| #[trigger]
        table.contains_key(id) ==> exists|i: int|
            0 <= i < list.len() && (#[trigger] list[i])@.steamid == id
    &&& forall|i: int, j: int|
        0 <= i < j < list.len() ==> (#[trigger] list[i])@.steamid != (#[trigger] list[j])@.steamid
}

impl View for RecordTable {
    type V = Map<Seq<char>, RecordView>;

    closed spec fn view(&self) -> Map<Seq<char>, RecordView> {
        by_identity(self.index@, self.records@)
    }
}

impl RecordTable {
    #[verifier::type_invariant]
    spec fn inv(self) -> bool {
        consistent(self.index@, self.records@)
    }

    /// An empty table.
    pub fn new() -> (table: RecordTable)
        ensures
            table@ == Map::<Seq<char>, RecordView>::empty(),
    {
        let table = RecordTable { index: StringHashMap::new(), records: Vec::new() };
        proof {
            assert(table@ =~= Map::<Seq<char>, RecordView>::empty());
        }
        table
    }

    /// Whether the table has a record of `steamid`.
    pub fn contains(&self, steamid: &str) -> (r: bool)
        ensures
            r == self@.contains_key(steamid@),
    {
        self.index.contains_key(steamid)
    }

    /// The record of `steamid`, if the table has one. A record that is handed
    /// out bears the identity it was asked for and says something.
    pub fn get(&self, steamid: &str) -> (r: Option<&PlayerRecord>)
        ensures
            r is Some <==> self@.contains_key(steamid@),
            r matches Some(record) ==> record@ == self@[steamid@] && record@.steamid == steamid@
                && !record@.carries_nothing(),
    {
        proof {
            use_type_invariant(self);
        }
        match self.index.get(steamid) {
            Some(place) => Some(&self.records[*place]),
            None => None,
        }
    }

    /// The records of the table, each once, in the order in which their
    /// identities came in (a record taken out leaves its place to the last).
    pub fn records(&self) -> (list: Vec<PlayerRecord>)
        ensures
            lists_table(list@, self@),
    {
        proof {
            use_type_invariant(self);
        }
        let mut list: Vec<PlayerRecord> = Vec::new();
        let mut i: usize = 0;
        while i < self.records.len()
            invariant
                0 <= i <= self.records@.len(),
                list@ == self.records@.take(i as int),
            decreases self.records@.len() - i,
        {
            list.push(self.records[i].duplicate());
            proof {
                assert(list@ =~= self.records@.take(i + 1));
            }
            i += 1;
        }
        proof {
            assert(list@ =~= self.records@);
            assert forall|id: Seq<char>| #[trigger] self@.contains_key(id) implies exists|i: int|
                0 <= i < list@.len() && (#[trigger] list@[i])@.steamid == id by {
                let place = self.index@[id] as int;
                assert(list@[place]@.steamid == id);
            }
        }
        list
    }

    /// Files `record` under its identity, in place of the record that was
    /// there. A record that says nothing is not kept: the identity is left
    /// without a record instead.
    pub fn upsert(&mut self, record: PlayerRecord)
        ensures
            final(self)@ == if record@.carries_nothing() {
                old(self)@.remove(record@.steamid)
            } else {
                old(self)@.insert(record@.steamid, record@)
            },
            forall|id: Seq<char>| #[trigger]
                final(self)@.contains_key(id) ==> !final(self)@[id].carries_nothing(),
    {
        let mut taken = RecordTable::new();
        std::mem::swap(self, &mut taken);
        proof {
            use_type_invariant(&taken);
        }
        let RecordTable { mut index, mut records } = taken;
        if record.carries_nothing() {
            take_out(&mut index, &mut records, record.steamid.as_str());
        } else {
            put(&mut index, &mut records, record);
        }
        *self = RecordTable { index, records };
    }

    /// Takes the record of `steamid` out of the table, if there is one.
    pub fn remove(&mut self, steamid: &str)
        ensures
            final(self)@ == old(self)@.remove(steamid@),
    {
        let mut taken = RecordTable::new();
        std::mem::swap(self, &mut taken);
        proof {
            use_type_invariant(&taken);
        }
        let RecordTable { mut index, mut records } = taken;
        take_out(&mut index, &mut records, steamid);
        *self = RecordTable { index, records };
    }
}

} // verus!
