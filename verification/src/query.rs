//! What a lookup answers: the records of a sequence that have a given port
//! or a given name, in the order in which the sequence holds them, or
//! nothing where there is none.

use vstd::prelude::*;
use crate::{RecordView, ServiceRecord};

verus! {

/// The predicate that holds of the records with port `port`.
pub open spec fn has_port(port: u16) -> spec_fn(RecordView) -> bool {
    |r: RecordView| r.port == port
}

/// The predicate that holds of the records with name `name`.
pub open spec fn has_name(name: Seq<char>) -> spec_fn(RecordView) -> bool {
    |r: RecordView| r.name == name
}

/// The records of `records` with port `port`, in their order.
pub open spec fn with_port(records: Seq<RecordView>, port: u16) -> Seq<RecordView> {
    records.filter(has_port(port))
}

/// The records of `records` with name `name`, in their order.
pub open spec fn with_name(records: Seq<RecordView>, name: Seq<char>) -> Seq<RecordView> {
    records.filter(has_name(name))
}

/// The records with name `name`, but none for the empty name: no lookup by
/// name finds a record without a name.
pub open spec fn named(records: Seq<RecordView>, name: Seq<char>) -> Seq<RecordView> {
    if name.len() == 0 {
        Seq::empty()
    } else {
        with_name(records, name)
    }
}

/// The records at `positions`, in the order of `positions`.
pub open spec fn pick(records: Seq<RecordView>, positions: Seq<usize>) -> Seq<RecordView> {
    Seq::new(positions.len(), |j: int| records[positions[j] as int])
}

/// The answer of a lookup that matched `matches`: nothing if there is no
/// match, never an empty collection.
pub open spec fn found(matches: Seq<RecordView>) -> Option<Seq<RecordView>> {
    if matches.len() == 0 {
        None
    } else {
        Some(matches)
    }
}

/// Filtering the first `k + 1` records is filtering the first `k` and then
/// deciding on the next one.
pub proof fn lemma_filter_next(records: Seq<RecordView>, p: spec_fn(RecordView) -> bool, k: int)
    requires
        0 <= k < records.len(),
    ensures
        records.take(k + 1).filter(p) == if p(records[k]) {
            records.take(k).filter(p).push(records[k])
        } else {
            records.take(k).filter(p)
        },
{
    reveal(Seq::filter);
    assert(records.take(k + 1).drop_last() == records.take(k));
}

/// Copies of the records of `records` with port `port`, in their order.
pub fn select_port(records: &Vec<ServiceRecord>, port: u16) -> (matches: Vec<ServiceRecord>)
    ensures
        matches.deep_view() == with_port(records.deep_view(), port),
{
    let mut matches: Vec<ServiceRecord> = Vec::new();
    let ghost all = records.deep_view();
    let mut next: usize = 0;
    while next < records.len()
        invariant
            next <= records@.len(),
            all == records.deep_view(),
            matches.deep_view() == all.take(next as int).filter(has_port(port)),
        decreases records@.len() - next,
    {
        proof {
            lemma_filter_next(all, has_port(port), next as int);
        }
        if records[next].port == port {
            matches.push(records[next].clone());
        }
        next += 1;
    }
    proof {
        assert(all.take(next as int) == all);
    }
    matches
}

/// Copies of the records of `records` with name `name`, in their order.
pub fn select_name(records: &Vec<ServiceRecord>, name: &str) -> (matches: Vec<ServiceRecord>)
    ensures
        matches.deep_view() == with_name(records.deep_view(), name@),
{
    let wanted: String = name.to_owned();
    let mut matches: Vec<ServiceRecord> = Vec::new();
    let ghost all = records.deep_view();
    let mut next: usize = 0;
    while next < records.len()
        invariant
            next <= records@.len(),
            all == records.deep_view(),
            wanted@ == name@,
            matches.deep_view() == all.take(next as int).filter(has_name(name@)),
        decreases records@.len() - next,
    {
        proof {
            lemma_filter_next(all, has_name(name@), next as int);
        }
        if records[next].name == wanted {
            matches.push(records[next].clone());
        }
        next += 1;
    }
    proof {
        assert(all.take(next as int) == all);
    }
    matches
}

/// Copies of the records at `positions`, in the order of `positions`.
pub(crate) fn copy_at(
    records: &Vec<ServiceRecord>,
    positions: &Vec<usize>,
) -> (copies: Vec<ServiceRecord>)
    requires
        forall|j: int| 0 <= j < positions@.len() ==> (#[trigger] positions@[j]) < records@.len(),
    ensures
        copies.deep_view() == pick(records.deep_view(), positions@),
{
    let mut copies: Vec<ServiceRecord> = Vec::new();
    let mut next: usize = 0;
    while next < positions.len()
        invariant
            next <= positions@.len(),
            forall|j: int|
                0 <= j < positions@.len() ==> (#[trigger] positions@[j]) < records@.len(),
            copies.deep_view() == pick(records.deep_view(), positions@.take(next as int)),
        decreases positions@.len() - next,
    {
        let ghost before = copies.deep_view();
        copies.push(records[positions[next]].clone());
        proof {
            let all = records.deep_view();
            let at = positions@[next as int] as int;
            assert(copies.deep_view() == before.push(all[at]));
        }
        next += 1;
    }
    copies
}

/// The answer of a lookup that matched `matches`.
pub fn answer(matches: Vec<ServiceRecord>) -> (result: Option<Vec<ServiceRecord>>)
    ensures
        result.deep_view() == found(matches.deep_view()),
{
    if matches.len() == 0 {
        None
    } else {
        Some(matches)
    }
}

/// What `f` makes of an item of `items` is among what it makes of them all.
pub proof fn lemma_filter_map_includes<A, B>(items: Seq<A>, f: spec_fn(A) -> Option<B>, i: int)
    requires
        0 <= i < items.len(),
        f(items[i]) is Some,
    ensures
        items.filter_map(f).contains(f(items[i])->0),
    decreases items.len(),
{
    let front = items.drop_last();
    let made = items.filter_map(f);
    if i == items.len() - 1 {
        assert(made[made.len() - 1] == f(items[i])->0);
    } else {
        lemma_filter_map_includes(front, f, i);
        let j = choose|j: int|
            0 <= j < front.filter_map(f).len() && front.filter_map(f)[j] == f(items[i])->0;
        assert(made[j] == f(items[i])->0);
    }
}

/// Among what a filter keeps are exactly the items that satisfy it.
pub proof fn lemma_filter_keeps<A>(items: Seq<A>, p: spec_fn(A) -> bool, x: A)
    ensures
        items.filter(p).contains(x) <==> items.contains(x) && p(x),
{
    broadcast use vstd::seq_lib::group_filter_ensures;

    let kept = items.filter(p);
    if kept.contains(x) {
        let j = choose|j: int| 0 <= j < kept.len() && kept[j] == x;
        assert(p(kept[j]));
        items.lemma_filter_contains_rev(p, x);
    }
    if items.contains(x) && p(x) {
        let i = choose|i: int| 0 <= i < items.len() && items[i] == x;
        assert(kept.contains(items[i]));
    }
}

/// A lookup by port finds every record that the source holds: the answer for
/// a record's port includes that record, with its name and its protocol.
pub proof fn lemma_port_lookup_includes(records: Seq<RecordView>, r: RecordView)
    requires
        records.contains(r),
    ensures
        found(with_port(records, r.port)) is Some,
        found(with_port(records, r.port))->0.contains(r),
{
    lemma_filter_keeps(records, has_port(r.port), r);
}

/// A lookup by port finds nothing exactly if the source holds no record with
/// that port.
pub proof fn lemma_port_lookup_not_found(records: Seq<RecordView>, port: u16)
    ensures
        found(with_port(records, port)) is None <==> forall|i: int|
            0 <= i < records.len() ==> (#[trigger] records[i]).port != port,
{
    let matches = with_port(records, port);
    if matches.len() > 0 {
        assert(matches.contains(matches[0]));
        lemma_filter_keeps(records, has_port(port), matches[0]);
        let i = choose|i: int| 0 <= i < records.len() && records[i] == matches[0];
        assert(records[i].port == port);
    } else {
        assert forall|i: int| 0 <= i < records.len() implies (#[trigger] records[i]).port
            != port by {
            assert(records.contains(records[i]));
            lemma_filter_keeps(records, has_port(port), records[i]);
        }
    }
}

/// A lookup by port answers with records of that port only.
pub proof fn lemma_port_lookup_only(records: Seq<RecordView>, port: u16, r: RecordView)
    ensures
        with_port(records, port).contains(r) <==> records.contains(r) && r.port == port,
{
    lemma_filter_keeps(records, has_port(port), r);
}

/// A lookup by name answers with every record of that name, whatever its
/// port and protocol, and with no other.
pub proof fn lemma_name_lookup_exact(records: Seq<RecordView>, name: Seq<char>, r: RecordView)
    ensures
        with_name(records, name).contains(r) <==> records.contains(r) && r.name == name,
{
    lemma_filter_keeps(records, has_name(name), r);
}

} // verus!
