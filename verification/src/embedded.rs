//! Lookups in a registry that was indexed ahead of time.
//!
//! A [`Registry`] holds the records of a feed by port and name, and two
//! indexes into them: for each port the run of records that have it, and for
//! each name but the empty one the positions of the records that have it. A
//! registry never changes once it is built.

use std::collections::HashMap;
use vstd::hash_map::StringHashMap;
use vstd::prelude::*;
use crate::order::{
    is_sorted, is_stable_sort_of, lemma_stable_sort_same_records, sort_records, spec_record_le,
};
use crate::query::{
    copy_at, found, has_name, has_port, lemma_filter_keeps, lemma_filter_map_includes,
    lemma_port_lookup_includes, lemma_port_lookup_not_found, named, pick, with_name, with_port,
};
use crate::row::{parse_rows, row_record, spec_parse_row, spec_parse_rows};
use crate::{RecordView, ServiceRecord};

verus! {

/// Whether `run` delimits the records with port `port`, and there is one:
/// they are those from position `run.0` up to, but not including, `run.1`.
pub open spec fn is_run(records: Seq<RecordView>, port: u16, run: (usize, usize)) -> bool {
    &&& run.0 < run.1 <= records.len()
    &&& forall|i: int|
        0 <= i < records.len() ==> (run.0 <= i < run.1 <==> (#[trigger] records[i]).port == port)
}

/// Whether `positions` holds the position `i`.
pub open spec fn holds(positions: Seq<usize>, i: int) -> bool {
    exists|j: int| 0 <= j < positions.len() && #[trigger] positions[j] == i
}

/// Whether `positions` holds, in ascending order, the positions of the
/// records with name `name` among the first `upto` records, and there is one.
pub open spec fn is_positions(
    records: Seq<RecordView>,
    name: Seq<char>,
    positions: Seq<usize>,
    upto: int,
) -> bool {
    &&& positions.len() > 0
    &&& forall|j: int|
        0 <= j < positions.len() ==> (#[trigger] positions[j]) < upto
            && records[positions[j] as int].name == name
    &&& forall|j: int, k: int|
        0 <= j < k < positions.len() ==> (#[trigger] positions[j]) < (#[trigger] positions[k])
    &&& forall|i: int|
        0 <= i < upto && (#[trigger] records[i]).name == name ==> holds(positions, i)
}

/// Whether `runs` gives, for each port that a record has, the run of the
/// records with that port, and nothing for any other port.
pub open spec fn port_index_holds(
    records: Seq<RecordView>,
    runs: Map<u16, (usize, usize)>,
) -> bool {
    &&& forall|port: u16| #[trigger] runs.contains_key(port) ==> is_run(records, port, runs[port])
    &&& forall|i: int|
        0 <= i < records.len() ==> runs.contains_key((#[trigger] records[i]).port)
}

/// Whether `ids` gives, for each name but the empty one that one of the first
/// `upto` records has, the number of the list in `lists` that holds the
/// positions of the records with that name, and nothing for any other name.
spec fn name_index_holds(
    records: Seq<RecordView>,
    ids: Map<Seq<char>, usize>,
    lists: Seq<Vec<usize>>,
    upto: int,
) -> bool {
    &&& forall|name: Seq<char>| #[trigger]
        ids.contains_key(name) ==> name.len() > 0 && ids[name] < lists.len() && is_positions(
            records,
            name,
            lists[ids[name] as int]@,
            upto,
        )
    &&& forall|i: int|
        0 <= i < upto && (#[trigger] records[i]).name.len() > 0 ==> ids.contains_key(
            records[i].name,
        )
    &&& forall|a: Seq<char>, b: Seq<char>|
        #![trigger ids.contains_key(a), ids.contains_key(b)]
        ids.contains_key(a) && ids.contains_key(b) && a != b ==> ids[a] != ids[b]
}

/// The records that satisfy `p` are the records at `positions`, if those are
/// the positions of the records that satisfy `p`, in ascending order.
pub proof fn lemma_filter_is_pick(
    records: Seq<RecordView>,
    p: spec_fn(RecordView) -> bool,
    positions: Seq<usize>,
)
    requires
        forall|j: int|
            0 <= j < positions.len() ==> (#[trigger] positions[j]) < records.len() && p(
                records[positions[j] as int],
            ),
        forall|j: int, k: int|
            0 <= j < k < positions.len() ==> (#[trigger] positions[j]) < (#[trigger] positions[k]),
        forall|i: int| 0 <= i < records.len() && p(#[trigger] records[i]) ==> holds(positions, i),
    ensures
        records.filter(p) == pick(records, positions),
    decreases records.len(),
{
    reveal(Seq::filter);
    if records.len() == 0 {
        if positions.len() > 0 {
            assert(positions[0] < records.len());
        }
    } else {
        let last = records.len() - 1;
        let front = records.drop_last();
        if p(records.last()) {
            // The position of the last record is the last of the positions,
            // and the positions before it are those of the records before it.
            let j = choose|j: int| 0 <= j < positions.len() && #[trigger] positions[j] == last;
            if j < positions.len() - 1 {
                assert(positions[j] < positions[positions.len() - 1]);
            }
            let rest = positions.drop_last();
            assert forall|i: int| 0 <= i < front.len() && p(#[trigger] front[i]) implies holds(
                rest,
                i,
            ) by {
                let k = choose|k: int| 0 <= k < positions.len() && #[trigger] positions[k] == i;
                assert(rest[k] == i);
            }
            lemma_filter_is_pick(front, p, rest);
        } else {
            lemma_filter_is_pick(front, p, positions);
        }
    }
}

/// Copies of the records from position `start` up to, but not including,
/// `end`.
fn copy_run(records: &Vec<ServiceRecord>, start: usize, end: usize) -> (copies: Vec<ServiceRecord>)
    requires
        start <= end <= records@.len(),
    ensures
        copies.deep_view() == records.deep_view().subrange(start as int, end as int),
{
    let mut copies: Vec<ServiceRecord> = Vec::new();
    let mut next: usize = start;
    while next < end
        invariant
            start <= next <= end <= records@.len(),
            copies.deep_view() == records.deep_view().subrange(start as int, next as int),
        decreases end - next,
    {
        let ghost before = copies.deep_view();
        copies.push(records[next].clone());
        proof {
            let all = records.deep_view();
            assert(copies.deep_view() == before.push(all[next as int]));
        }
        next += 1;
    }
    copies
}

/// The runs of the records of each port.
fn index_ports(records: &Vec<ServiceRecord>) -> (runs: HashMap<u16, (usize, usize)>)
    requires
        is_sorted(records.deep_view()),
    ensures
        port_index_holds(records.deep_view(), runs@),
{
    let mut runs: HashMap<u16, (usize, usize)> = HashMap::new();
    let ghost all = records.deep_view();
    let mut start: usize = 0;
    while start < records.len()
        invariant
            start <= records@.len(),
            all == records.deep_view(),
            is_sorted(all),
            forall|port: u16| #[trigger]
                runs@.contains_key(port) ==> is_run(all, port, runs@[port]),
            forall|i: int| 0 <= i < start ==> runs@.contains_key((#[trigger] all[i]).port),
            forall|i: int, j: int|
                0 <= i < start <= j < all.len() ==> (#[trigger] all[i]).port < (
                #[trigger] all[j]).port,
        decreases records@.len() - start,
    {
        let port = records[start].port;
        let mut end: usize = start + 1;
        while end < records.len() && records[end].port == port
            invariant
                start < end <= records@.len(),
                all == records.deep_view(),
                port == all[start as int].port,
                forall|i: int| start <= i < end ==> (#[trigger] all[i]).port == port,
            decreases records@.len() - end,
        {
            end += 1;
        }
        proof {
            assert forall|i: int| 0 <= i < all.len() implies (start <= i < end <==> (
            #[trigger] all[i]).port == port) by {
                if i < start {
                } else if i >= end {
                    assert(spec_record_le(all[start as int], all[end as int]));
                }
            }
        }
        runs.insert(port, (start, end));
        start = end;
    }
    runs
}

/// The lists of the positions of the records of each name but the empty one,
/// and the number of each name's list.
fn index_names(records: &Vec<ServiceRecord>) -> (index: (StringHashMap<usize>, Vec<Vec<usize>>))
    ensures
        name_index_holds(records.deep_view(), index.0@, index.1@, records@.len() as int),
{
    let mut ids: StringHashMap<usize> = StringHashMap::new();
    let mut lists: Vec<Vec<usize>> = Vec::new();
    let ghost all = records.deep_view();
    let mut next: usize = 0;
    while next < records.len()
        invariant
            next <= records@.len(),
            all == records.deep_view(),
            name_index_holds(all, ids@, lists@, next as int),
        decreases records@.len() - next,
    {
        let name = records[next].name.as_str();
        if !name.is_empty() {
            let known: Option<usize> = match ids.get(name) {
                Some(id) => Some(*id),
                None => None,
            };
            match known {
                Some(id) => {
                    let ghost before = lists@[id as int]@;
                    lists[id].push(next);
                    proof {
                        let after = lists@[id as int]@;
                        assert(is_positions(all, name@, after, next + 1)) by {
                            assert(after[after.len() - 1] == next);
                            assert forall|i: int| 0 <= i < next + 1 && (#[trigger] all[i]).name
                                == name@ implies holds(after, i) by {
                                if i < next {
                                    let j = choose|j: int|
                                        0 <= j < before.len() && #[trigger] before[j] == i;
                                    assert(after[j] == i);
                                }
                            }
                        }
                    }
                },
                None => {
                    let mut list: Vec<usize> = Vec::new();
                    list.push(next);
                    ids.insert(records[next].name.clone(), lists.len());
                    lists.push(list);
                    proof {
                        let after = lists@[lists@.len() - 1]@;
                        assert(is_positions(all, name@, after, next + 1)) by {
                            assert(after[0] == next);
                        }
                    }
                },
            }
        }
        next += 1;
    }
    (ids, lists)
}

/// Whether `positions` gives, for each name but the empty one that a record
/// has, the positions of the records with that name, and nothing for any
/// other name.
pub open spec fn name_index_gives(
    records: Seq<RecordView>,
    positions: Map<Seq<char>, Seq<usize>>,
) -> bool {
    &&& forall|name: Seq<char>| #[trigger]
        positions.contains_key(name) ==> name.len() > 0 && is_positions(
            records,
            name,
            positions[name],
            records.len() as int,
        )
    &&& forall|i: int|
        0 <= i < records.len() && (#[trigger] records[i]).name.len() > 0
            ==> positions.contains_key(records[i].name)
}

/// The records of a feed by port and name, with an index by port and one by
/// name.
pub struct Registry {
    records: Vec<ServiceRecord>,
    runs: HashMap<u16, (usize, usize)>,
    ids: StringHashMap<usize>,
    lists: Vec<Vec<usize>>,
}

impl Registry {
    /// The records of the registry, in the order in which it holds them.
    pub closed spec fn records(&self) -> Seq<RecordView> {
        self.records.deep_view()
    }

    /// The index by port: the run of the records of each port.
    pub closed spec fn port_index(&self) -> Map<u16, (usize, usize)> {
        self.runs@
    }

    /// The index by name: the positions of the records of each name.
    pub closed spec fn name_index(&self) -> Map<Seq<char>, Seq<usize>> {
        Map::new(
            |name: Seq<char>| self.ids@.contains_key(name),
            |name: Seq<char>| self.lists@[self.ids@[name] as int]@,
        )
    }

    /// Whether the two indexes match the records.
    pub open spec fn is_indexed(&self) -> bool {
        &&& port_index_holds(self.records(), self.port_index())
        &&& name_index_gives(self.records(), self.name_index())
    }

    #[verifier::type_invariant]
    spec fn indexed(&self) -> bool {
        &&& port_index_holds(self.records.deep_view(), self.runs@)
        &&& name_index_holds(
            self.records.deep_view(),
            self.ids@,
            self.lists@,
            self.records@.len() as int,
        )
    }

    /// The registry of `feed`: its records by port and name, those with the
    /// same port and name in the order of `feed`, and the two indexes into
    /// them.
    pub fn from_records(feed: &Vec<ServiceRecord>) -> (registry: Registry)
        ensures
            is_stable_sort_of(registry.records(), feed.deep_view()),
            registry.is_indexed(),
    {
        let records = sort_records(feed);
        let runs = index_ports(&records);
        let (ids, lists) = index_names(&records);
        Registry { records, runs, ids, lists }
    }

    /// The registry of the records that the rows of a feed define.
    pub fn build(rows: &Vec<Vec<String>>) -> (registry: Registry)
        ensures
            is_stable_sort_of(registry.records(), spec_parse_rows(rows.deep_view())),
            registry.is_indexed(),
    {
        Registry::from_records(&parse_rows(rows))
    }

    /// The records, in the order in which the registry holds them.
    pub fn entries(&self) -> (records: &Vec<ServiceRecord>)
        ensures
            records.deep_view() == self.records(),
    {
        &self.records
    }

    /// The number of records.
    pub fn len(&self) -> (len: usize)
        ensures
            len == self.records().len(),
    {
        self.records.len()
    }
}

/// The records of `registry` with port `port`, in the order in which the
/// registry holds them, or nothing if it holds none.
pub fn lookup_by_port_impl(registry: &Registry, port: u16) -> (result: Option<Vec<ServiceRecord>>)
    ensures
        result.deep_view() == found(with_port(registry.records(), port)),
{
    proof {
        use_type_invariant(registry);
    }
    let ghost all = registry.records.deep_view();
    match registry.runs.get(&port) {
        None => {
            proof {
                lemma_port_lookup_not_found(all, port);
            }
            None
        },
        Some(run) => {
            let start = run.0;
            let end = run.1;
            let matches = copy_run(&registry.records, start, end);
            proof {
                let positions = Seq::new((end - start) as nat, |j: int| (start + j) as usize);
                assert forall|i: int|
                    0 <= i < all.len() && has_port(port)(#[trigger] all[i]) implies holds(
                    positions,
                    i,
                ) by {
                    assert(positions[i - start] == i);
                }
                lemma_filter_is_pick(all, has_port(port), positions);
            }
            Some(matches)
        },
    }
}

/// The records of `registry` with name `name`, in the order in which the
/// registry holds them, or nothing if it holds none. The empty name is not
/// indexed: a lookup of it finds nothing.
pub fn lookup_by_name_impl(registry: &Registry, name: &str) -> (result: Option<Vec<ServiceRecord>>)
    ensures
        result.deep_view() == found(named(registry.records(), name@)),
{
    proof {
        use_type_invariant(registry);
    }
    let ghost all = registry.records.deep_view();
    match registry.ids.get(name) {
        None => {
            proof {
                let matches = with_name(all, name@);
                if name@.len() > 0 && matches.len() > 0 {
                    assert(matches.contains(matches[0]));
                    lemma_filter_keeps(all, has_name(name@), matches[0]);
                    let i = choose|i: int| 0 <= i < all.len() && all[i] == matches[0];
                    assert(registry.ids@.contains_key(all[i].name));
                }
            }
            None
        },
        Some(id) => {
            let positions = &registry.lists[*id];
            let matches = copy_at(&registry.records, positions);
            proof {
                lemma_filter_is_pick(all, has_name(name@), positions@);
            }
            Some(matches)
        },
    }
}

/// A lookup by port finds the record of every row of the feed that defines
/// one: the answer for the record's port includes the record.
pub proof fn lemma_row_record_is_found(
    rows: Seq<Seq<Seq<char>>>,
    i: int,
    registry: Seq<RecordView>,
)
    requires
        is_stable_sort_of(registry, spec_parse_rows(rows)),
        0 <= i < rows.len(),
        spec_parse_row(rows[i]) is Some,
    ensures
        found(with_port(registry, spec_parse_row(rows[i])->0.port)) is Some,
        found(with_port(registry, spec_parse_row(rows[i])->0.port))->0.contains(
            spec_parse_row(rows[i])->0,
        ),
{
    let r = spec_parse_row(rows[i])->0;
    lemma_filter_map_includes(rows, row_record(), i);
    lemma_stable_sort_same_records(registry, spec_parse_rows(rows), r);
    lemma_port_lookup_includes(registry, r);
}

/// A lookup by port finds nothing exactly if no row of the feed defines a
/// record with that port.
pub proof fn lemma_port_without_row_is_not_found(
    rows: Seq<Seq<Seq<char>>>,
    registry: Seq<RecordView>,
    port: u16,
)
    requires
        is_stable_sort_of(registry, spec_parse_rows(rows)),
    ensures
        found(with_port(registry, port)) is None <==> forall|i: int|
            0 <= i < rows.len() && spec_parse_row(#[trigger] rows[i]) is Some ==> spec_parse_row(
                rows[i],
            )->0.port != port,
{
    let feed = spec_parse_rows(rows);
    lemma_port_lookup_not_found(registry, port);
    if found(with_port(registry, port)) is None {
        assert forall|i: int|
            0 <= i < rows.len() && spec_parse_row(#[trigger] rows[i]) is Some implies
            spec_parse_row(rows[i])->0.port != port by {
            let r = spec_parse_row(rows[i])->0;
            lemma_filter_map_includes(rows, row_record(), i);
            lemma_stable_sort_same_records(registry, feed, r);
            let k = choose|k: int| 0 <= k < registry.len() && registry[k] == r;
            assert(registry[k].port != port);
        }
    } else {
        let k = choose|k: int| 0 <= k < registry.len() && (#[trigger] registry[k]).port == port;
        assert(registry.contains(registry[k]));
        lemma_stable_sort_same_records(registry, feed, registry[k]);
        rows.lemma_filter_map_contains(row_record(), registry[k]);
        let row = choose|row: Seq<Seq<char>>| #[trigger]
            rows.contains(row) && row_record()(row) == Some(registry[k]);
        let i = choose|i: int| 0 <= i < rows.len() && rows[i] == row;
        assert(spec_parse_row(rows[i])->0.port == port);
    }
}

} // verus!
