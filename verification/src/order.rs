//! The order of a registry's records: by port, then by name.
//!
//! Names are ordered as texts are: character by character, and a text
//! before every longer text that starts with it. Records with the same port
//! and name keep the order in which the feed gave them.

use vstd::prelude::*;
use crate::query::{copy_at, lemma_filter_keeps, pick};
use crate::text::chars_of;
use crate::{RecordView, ServiceRecord};

verus! {

/// Whether the text `a` is `b` or comes before it.
pub open spec fn spec_name_le(a: Seq<char>, b: Seq<char>) -> bool
    decreases a.len(),
{
    if a.len() == 0 {
        true
    } else if b.len() == 0 {
        false
    } else if a[0] != b[0] {
        a[0] < b[0]
    } else {
        spec_name_le(a.skip(1), b.skip(1))
    }
}

/// Whether the record `a` has the port and name of `b` or comes before it:
/// its port is smaller, or the ports are equal and its name is the name of
/// `b` or comes before it.
pub open spec fn spec_record_le(a: RecordView, b: RecordView) -> bool {
    a.port < b.port || (a.port == b.port && spec_name_le(a.name, b.name))
}

/// Whether each record of `records` comes before all that follow it, or has
/// their port and name.
pub open spec fn is_sorted(records: Seq<RecordView>) -> bool {
    forall|i: int, j: int|
        0 <= i < j < records.len() ==> spec_record_le(#[trigger] records[i], #[trigger] records[j])
}

/// The predicate that holds of the records with port `port` and name `name`.
pub open spec fn has_key(port: u16, name: Seq<char>) -> spec_fn(RecordView) -> bool {
    |r: RecordView| r.port == port && r.name == name
}

/// The records of `records` with port `port` and name `name`, in their order.
pub open spec fn with_key(records: Seq<RecordView>, port: u16, name: Seq<char>) -> Seq<
    RecordView,
> {
    records.filter(has_key(port, name))
}

/// Whether `sorted` holds the records of `feed` by port and name, those with
/// the same port and name in the order of `feed`.
pub open spec fn is_stable_sort_of(sorted: Seq<RecordView>, feed: Seq<RecordView>) -> bool {
    &&& is_sorted(sorted)
    &&& forall|port: u16, name: Seq<char>| #[trigger]
        with_key(sorted, port, name) == with_key(feed, port, name)
}

/// Every text is itself or comes before itself.
pub proof fn lemma_name_le_reflexive(a: Seq<char>)
    ensures
        spec_name_le(a, a),
    decreases a.len(),
{
    if a.len() > 0 {
        lemma_name_le_reflexive(a.skip(1));
    }
}

/// Of two texts, one is the other or comes before it.
pub proof fn lemma_name_le_total(a: Seq<char>, b: Seq<char>)
    ensures
        spec_name_le(a, b) || spec_name_le(b, a),
    decreases a.len(),
{
    if a.len() > 0 && b.len() > 0 && a[0] == b[0] {
        lemma_name_le_total(a.skip(1), b.skip(1));
    }
}

/// The order of texts is transitive.
pub proof fn lemma_name_le_transitive(a: Seq<char>, b: Seq<char>, c: Seq<char>)
    requires
        spec_name_le(a, b),
        spec_name_le(b, c),
    ensures
        spec_name_le(a, c),
    decreases a.len(),
{
    if a.len() > 0 && b.len() > 0 && c.len() > 0 && a[0] == b[0] && b[0] == c[0] {
        lemma_name_le_transitive(a.skip(1), b.skip(1), c.skip(1));
    }
}

/// Two texts of which each is the other or comes before it are equal.
pub proof fn lemma_name_le_antisymmetric(a: Seq<char>, b: Seq<char>)
    requires
        spec_name_le(a, b),
        spec_name_le(b, a),
    ensures
        a == b,
    decreases a.len(),
{
    if a.len() > 0 && b.len() > 0 {
        lemma_name_le_antisymmetric(a.skip(1), b.skip(1));
        assert(a == seq![a[0]] + a.skip(1));
        assert(b == seq![b[0]] + b.skip(1));
    }
}

/// Texts that agree on their first `n` characters are ordered as what
/// follows those characters is.
pub proof fn lemma_name_le_common_prefix(a: Seq<char>, b: Seq<char>, n: int)
    requires
        0 <= n <= a.len(),
        n <= b.len(),
        forall|i: int| 0 <= i < n ==> a[i] == b[i],
    ensures
        spec_name_le(a, b) == spec_name_le(a.skip(n), b.skip(n)),
    decreases n,
{
    if n == 0 {
        assert(a.skip(0) == a);
        assert(b.skip(0) == b);
    } else {
        lemma_name_le_common_prefix(a.skip(1), b.skip(1), n - 1);
        assert(a.skip(1).skip(n - 1) == a.skip(n));
        assert(b.skip(1).skip(n - 1) == b.skip(n));
    }
}

/// The order of records is transitive.
pub proof fn lemma_record_le_transitive(a: RecordView, b: RecordView, c: RecordView)
    requires
        spec_record_le(a, b),
        spec_record_le(b, c),
    ensures
        spec_record_le(a, c),
{
    if a.port == b.port && b.port == c.port {
        lemma_name_le_transitive(a.name, b.name, c.name);
    }
}

/// No record is kept by a filter that none of them satisfies.
proof fn lemma_filter_none(records: Seq<RecordView>, p: spec_fn(RecordView) -> bool)
    requires
        forall|i: int| 0 <= i < records.len() ==> !p(#[trigger] records[i]),
    ensures
        records.filter(p) == Seq::<RecordView>::empty(),
    decreases records.len(),
{
    reveal(Seq::filter);
    if records.len() > 0 {
        lemma_filter_none(records.drop_last(), p);
    }
}

/// Whether the text `a` is `b` or comes before it.
pub fn name_le(a: &[char], b: &[char]) -> (le: bool)
    ensures
        le == spec_name_le(a@, b@),
{
    let mut n: usize = 0;
    while n < a.len() && n < b.len() && a[n] == b[n]
        invariant
            n <= a@.len(),
            n <= b@.len(),
            forall|i: int| 0 <= i < n ==> a@[i] == b@[i],
        decreases a@.len() - n,
    {
        n += 1;
    }
    proof {
        lemma_name_le_common_prefix(a@, b@, n as int);
    }
    if n == a.len() {
        true
    } else if n == b.len() {
        false
    } else {
        a[n] < b[n]
    }
}

/// What the order goes by: the port of a record and the characters of its
/// name.
struct Key {
    port: u16,
    name: Vec<char>,
}

/// Whether `keys` holds the port and the name of each of `records`.
spec fn keys_of(keys: Seq<Key>, records: Seq<RecordView>) -> bool {
    &&& keys.len() == records.len()
    &&& forall|i: int|
        0 <= i < keys.len() ==> (#[trigger] keys[i]).port == records[i].port && keys[i].name@
            == records[i].name
}

/// Whether every position of `order` is one of the first `len`.
spec fn below(order: Seq<usize>, len: nat) -> bool {
    forall|i: int| 0 <= i < order.len() ==> (#[trigger] order[i]) < len
}

/// Whether each record of `before` comes before each record of `after`, or
/// has its port and name.
spec fn all_le(before: Seq<RecordView>, after: Seq<RecordView>) -> bool {
    forall|i: int, j: int|
        0 <= i < before.len() && 0 <= j < after.len() ==> spec_record_le(
            #[trigger] before[i],
            #[trigger] after[j],
        )
}

/// Whether each record of `before` comes before each record of `after`, and
/// has another port or name.
spec fn all_lt(before: Seq<RecordView>, after: Seq<RecordView>) -> bool {
    forall|i: int, j: int|
        0 <= i < before.len() && 0 <= j < after.len() ==> !spec_record_le(
            #[trigger] after[j],
            #[trigger] before[i],
        )
}

/// Whether `merged` is what merging the first `i` records of `left` with the
/// first `j` of `right` gives: it is sorted and comes before what is left of
/// both, it holds the records of each port and name from `left` before those
/// from `right`, and what it took from `right` comes before what is left of
/// `left`.
spec fn merging(
    merged: Seq<RecordView>,
    left: Seq<RecordView>,
    right: Seq<RecordView>,
    i: int,
    j: int,
) -> bool {
    &&& 0 <= i <= left.len()
    &&& 0 <= j <= right.len()
    &&& is_sorted(left)
    &&& is_sorted(right)
    &&& is_sorted(merged)
    &&& all_le(merged, left.skip(i))
    &&& all_le(merged, right.skip(j))
    &&& all_lt(right.take(j), left.skip(i))
    &&& forall|port: u16, name: Seq<char>| #[trigger]
        with_key(merged, port, name) == with_key(left.take(i), port, name) + with_key(
            right.take(j),
            port,
            name,
        )
}

/// The records with some port and name among a sequence and one more record.
proof fn lemma_with_key_push(records: Seq<RecordView>, x: RecordView, port: u16, name: Seq<char>)
    ensures
        with_key(records.push(x), port, name) == if has_key(port, name)(x) {
            with_key(records, port, name).push(x)
        } else {
            with_key(records, port, name)
        },
{
    reveal(Seq::filter);
    assert(records.push(x).drop_last() == records);
}

/// Merging goes on with the next record of `left` where `right` has none
/// left, or none that comes before it.
proof fn lemma_merge_left(
    merged: Seq<RecordView>,
    left: Seq<RecordView>,
    right: Seq<RecordView>,
    i: int,
    j: int,
)
    requires
        merging(merged, left, right, i, j),
        i < left.len(),
        j < right.len() ==> spec_record_le(left[i], right[j]),
    ensures
        merging(merged.push(left[i]), left, right, i + 1, j),
{
    let x = left[i];
    let next = merged.push(x);
    assert(left.skip(i)[0] == x);
    assert forall|a: int, b: int|
        0 <= a < next.len() && 0 <= b < left.skip(i + 1).len() implies spec_record_le(
        #[trigger] next[a],
        #[trigger] left.skip(i + 1)[b],
    ) by {
        if a < merged.len() {
            assert(spec_record_le(merged[a], left.skip(i)[b + 1]));
        }
    }
    assert forall|a: int, b: int|
        0 <= a < next.len() && 0 <= b < right.skip(j).len() implies spec_record_le(
        #[trigger] next[a],
        #[trigger] right.skip(j)[b],
    ) by {
        if a == merged.len() && b > 0 {
            lemma_record_le_transitive(x, right[j], right[j + b]);
        }
    }
    assert forall|a: int, b: int|
        0 <= a < right.take(j).len() && 0 <= b < left.skip(i + 1).len() implies !spec_record_le(
        #[trigger] left.skip(i + 1)[b],
        #[trigger] right.take(j)[a],
    ) by {
        assert(!spec_record_le(left.skip(i)[b + 1], right.take(j)[a]));
    }
    assert forall|port: u16, name: Seq<char>| #[trigger]
        with_key(next, port, name) == with_key(left.take(i + 1), port, name) + with_key(
            right.take(j),
            port,
            name,
        ) by {
        let p = has_key(port, name);
        assert(left.take(i + 1) == left.take(i).push(x));
        lemma_with_key_push(merged, x, port, name);
        lemma_with_key_push(left.take(i), x, port, name);
        if p(x) {
            // None of what was taken from `right` has the port and name of
            // `x`: all of it comes before `x`.
            assert forall|t: int| 0 <= t < right.take(j).len() implies !p(
                #[trigger] right.take(j)[t],
            ) by {
                lemma_name_le_reflexive(x.name);
            }
            lemma_filter_none(right.take(j), p);
        }
    }
}

/// Merging goes on with the next record of `right` where `left` has none
/// left, or only such as come after it.
proof fn lemma_merge_right(
    merged: Seq<RecordView>,
    left: Seq<RecordView>,
    right: Seq<RecordView>,
    i: int,
    j: int,
)
    requires
        merging(merged, left, right, i, j),
        j < right.len(),
        i < left.len() ==> !spec_record_le(left[i], right[j]),
    ensures
        merging(merged.push(right[j]), left, right, i, j + 1),
{
    let y = right[j];
    let next = merged.push(y);
    assert(right.skip(j)[0] == y);
    assert forall|a: int, b: int|
        0 <= a < next.len() && 0 <= b < left.skip(i).len() implies spec_record_le(
        #[trigger] next[a],
        #[trigger] left.skip(i)[b],
    ) by {
        if a == merged.len() {
            lemma_name_le_total(left[i].name, y.name);
            if b > 0 {
                lemma_record_le_transitive(y, left[i], left[i + b]);
            }
        }
    }
    assert forall|a: int, b: int|
        0 <= a < next.len() && 0 <= b < right.skip(j + 1).len() implies spec_record_le(
        #[trigger] next[a],
        #[trigger] right.skip(j + 1)[b],
    ) by {
        if a < merged.len() {
            assert(spec_record_le(merged[a], right.skip(j)[b + 1]));
        }
    }
    assert forall|a: int, b: int|
        0 <= a < right.take(j + 1).len() && 0 <= b < left.skip(i).len() implies !spec_record_le(
        #[trigger] left.skip(i)[b],
        #[trigger] right.take(j + 1)[a],
    ) by {
        if a == j && b > 0 && spec_record_le(left[i + b], y) {
            lemma_record_le_transitive(left[i], left[i + b], y);
        }
    }
    assert forall|port: u16, name: Seq<char>| #[trigger]
        with_key(next, port, name) == with_key(left.take(i), port, name) + with_key(
            right.take(j + 1),
            port,
            name,
        ) by {
        assert(right.take(j + 1) == right.take(j).push(y));
        lemma_with_key_push(merged, y, port, name);
        lemma_with_key_push(right.take(j), y, port, name);
    }
}

/// Whether the record of `a` has the port and name of the record of `b` or
/// comes before it.
fn key_le(a: &Key, b: &Key) -> (le: bool)
    ensures
        le == (a.port < b.port || (a.port == b.port && spec_name_le(a.name@, b.name@))),
{
    a.port < b.port || (a.port == b.port && name_le(a.name.as_slice(), b.name.as_slice()))
}

/// The positions of `left` and `right` in one order, where each of the two
/// gives the positions of sorted records: the records at the positions are
/// sorted, and those of a port and name from `left` come before those from
/// `right`.
fn merge(
    records: &Vec<ServiceRecord>,
    keys: &Vec<Key>,
    left: &Vec<usize>,
    right: &Vec<usize>,
) -> (order: Vec<usize>)
    requires
        keys_of(keys@, records.deep_view()),
        below(left@, records@.len()),
        below(right@, records@.len()),
        is_sorted(pick(records.deep_view(), left@)),
        is_sorted(pick(records.deep_view(), right@)),
    ensures
        below(order@, records@.len()),
        is_sorted(pick(records.deep_view(), order@)),
        forall|port: u16, name: Seq<char>| #[trigger]
            with_key(pick(records.deep_view(), order@), port, name) == with_key(
                pick(records.deep_view(), left@),
                port,
                name,
            ) + with_key(pick(records.deep_view(), right@), port, name),
{
    let ghost all = records.deep_view();
    let ghost from_left = pick(all, left@);
    let ghost from_right = pick(all, right@);
    let mut order: Vec<usize> = Vec::new();
    let mut i: usize = 0;
    let mut j: usize = 0;
    proof {
        assert(from_left.take(0) == Seq::<RecordView>::empty());
        assert(from_right.take(0) == Seq::<RecordView>::empty());
        assert(pick(all, order@) == Seq::<RecordView>::empty());
    }
    while i < left.len() || j < right.len()
        invariant
            all == records.deep_view(),
            from_left == pick(all, left@),
            from_right == pick(all, right@),
            keys_of(keys@, all),
            below(left@, all.len()),
            below(right@, all.len()),
            below(order@, all.len()),
            merging(pick(all, order@), from_left, from_right, i as int, j as int),
        decreases left@.len() - i + right@.len() - j,
    {
        let ghost merged = pick(all, order@);
        let take_left = if j == right.len() {
            true
        } else if i == left.len() {
            false
        } else {
            key_le(&keys[left[i]], &keys[right[j]])
        };
        if take_left {
            proof {
                lemma_merge_left(merged, from_left, from_right, i as int, j as int);
                assert(pick(all, order@.push(left@[i as int])) == merged.push(from_left[i as int]));
            }
            order.push(left[i]);
            i += 1;
        } else {
            proof {
                lemma_merge_right(merged, from_left, from_right, i as int, j as int);
                assert(pick(all, order@.push(right@[j as int])) == merged.push(
                    from_right[j as int],
                ));
            }
            order.push(right[j]);
            j += 1;
        }
    }
    proof {
        assert(from_left.take(i as int) == from_left);
        assert(from_right.take(j as int) == from_right);
    }
    order
}

/// The positions from `low` up to, but not including, `high`, in the order
/// of their records: by port and name, those with the same port and name in
/// ascending order.
fn sort_range(
    records: &Vec<ServiceRecord>,
    keys: &Vec<Key>,
    low: usize,
    high: usize,
) -> (order: Vec<usize>)
    requires
        keys_of(keys@, records.deep_view()),
        low <= high <= records@.len(),
    ensures
        below(order@, records@.len()),
        is_stable_sort_of(
            pick(records.deep_view(), order@),
            records.deep_view().subrange(low as int, high as int),
        ),
    decreases high - low,
{
    let ghost all = records.deep_view();
    let mut order: Vec<usize> = Vec::new();
    if high - low == 0 {
        proof {
            assert(pick(all, order@) == all.subrange(low as int, high as int));
        }
        order
    } else if high - low == 1 {
        order.push(low);
        proof {
            assert(pick(all, order@) == all.subrange(low as int, high as int));
        }
        order
    } else {
        let middle = low + (high - low) / 2;
        let left = sort_range(records, keys, low, middle);
        let right = sort_range(records, keys, middle, high);
        let merged = merge(records, keys, &left, &right);
        proof {
            let first = all.subrange(low as int, middle as int);
            let second = all.subrange(middle as int, high as int);
            assert(all.subrange(low as int, high as int) == first + second);
        }
        merged
    }
}

/// The port and the name of each of `records`.
fn keys_for(records: &Vec<ServiceRecord>) -> (keys: Vec<Key>)
    ensures
        keys_of(keys@, records.deep_view()),
{
    let mut keys: Vec<Key> = Vec::new();
    let mut next: usize = 0;
    while next < records.len()
        invariant
            next <= records@.len(),
            keys@.len() == next,
            forall|i: int|
                0 <= i < next ==> (#[trigger] keys@[i]).port == records@[i].port && keys@[i].name@
                    == records@[i].name@,
        decreases records@.len() - next,
    {
        keys.push(Key { port: records[next].port, name: chars_of(records[next].name.as_str()) });
        next += 1;
    }
    keys
}

/// Copies of the records of `feed` by port and name, those with the same
/// port and name in the order of `feed`.
///
/// The records are sorted by merging: the time grows with the number of
/// records as that number times its logarithm does.
pub fn sort_records(feed: &Vec<ServiceRecord>) -> (sorted: Vec<ServiceRecord>)
    ensures
        is_stable_sort_of(sorted.deep_view(), feed.deep_view()),
{
    let keys = keys_for(feed);
    let order = sort_range(feed, &keys, 0, feed.len());
    proof {
        assert(feed.deep_view().subrange(0, feed@.len() as int) == feed.deep_view());
    }
    copy_at(feed, &order)
}

/// Two sequences that hold the same records of each port and name hold the
/// same records.
proof fn lemma_same_keys_same_records(a: Seq<RecordView>, b: Seq<RecordView>, r: RecordView)
    requires
        forall|port: u16, name: Seq<char>| #[trigger]
            with_key(a, port, name) == with_key(b, port, name),
    ensures
        a.contains(r) <==> b.contains(r),
{
    assert(with_key(a, r.port, r.name) == with_key(b, r.port, r.name));
    lemma_filter_keeps(a, has_key(r.port, r.name), r);
    lemma_filter_keeps(b, has_key(r.port, r.name), r);
}

/// Sorting neither drops a record nor adds one.
pub proof fn lemma_stable_sort_same_records(
    sorted: Seq<RecordView>,
    feed: Seq<RecordView>,
    r: RecordView,
)
    requires
        is_stable_sort_of(sorted, feed),
    ensures
        sorted.contains(r) <==> feed.contains(r),
{
    lemma_same_keys_same_records(sorted, feed, r);
}

/// A filter that keeps `r` keeps every occurrence of it.
proof fn lemma_filter_keeps_count(
    records: Seq<RecordView>,
    p: spec_fn(RecordView) -> bool,
    r: RecordView,
)
    requires
        p(r),
    ensures
        records.filter(p).to_multiset().count(r) == records.to_multiset().count(r),
    decreases records.len(),
{
    broadcast use vstd::seq_lib::group_to_multiset_ensures;

    reveal(Seq::filter);
    if records.len() > 0 {
        lemma_filter_keeps_count(records.drop_last(), p, r);
        assert(records == records.drop_last().push(records.last()));
    }
}

/// Sorting keeps each record as often as the feed holds it.
pub proof fn lemma_stable_sort_is_permutation(sorted: Seq<RecordView>, feed: Seq<RecordView>)
    requires
        is_stable_sort_of(sorted, feed),
    ensures
        sorted.to_multiset() == feed.to_multiset(),
{
    assert forall|r: RecordView| sorted.to_multiset().count(r) == feed.to_multiset().count(
        r,
    ) by {
        let p = has_key(r.port, r.name);
        assert(with_key(sorted, r.port, r.name) == with_key(feed, r.port, r.name));
        lemma_filter_keeps_count(sorted, p, r);
        lemma_filter_keeps_count(feed, p, r);
    }
}

/// Two records of which each has the port and name of the other or comes
/// before it have the same port and name.
pub proof fn lemma_record_le_antisymmetric(a: RecordView, b: RecordView)
    requires
        spec_record_le(a, b),
        spec_record_le(b, a),
    ensures
        a.port == b.port,
        a.name == b.name,
{
    lemma_name_le_antisymmetric(a.name, b.name);
}

/// The last record of a sorted sequence comes after every record of it, or
/// has its port and name.
proof fn lemma_last_is_greatest(records: Seq<RecordView>, i: int)
    requires
        is_sorted(records),
        0 <= i < records.len(),
    ensures
        spec_record_le(records[i], records.last()),
{
    if i == records.len() - 1 {
        lemma_name_le_reflexive(records[i].name);
    }
}

/// Without its last record, a sequence has the records of each port and name
/// that it had, but for the last of those with the port and name of the
/// record that left.
proof fn lemma_with_key_drop_last(records: Seq<RecordView>, port: u16, name: Seq<char>)
    requires
        records.len() > 0,
    ensures
        with_key(records.drop_last(), port, name) == if has_key(port, name)(records.last()) {
            with_key(records, port, name).drop_last()
        } else {
            with_key(records, port, name)
        },
        has_key(port, name)(records.last()) ==> with_key(records, port, name).len() > 0
            && with_key(records, port, name).last() == records.last(),
{
    reveal(Seq::filter);
}

/// The records of a feed can be sorted in one way only: two sorted sequences
/// that hold the records of each port and name in the same order are equal.
pub proof fn lemma_stable_sort_is_unique(a: Seq<RecordView>, b: Seq<RecordView>)
    requires
        is_sorted(a),
        is_sorted(b),
        forall|port: u16, name: Seq<char>| #[trigger]
            with_key(a, port, name) == with_key(b, port, name),
    ensures
        a == b,
    decreases a.len(),
{
    if a.len() == 0 {
        if b.len() > 0 {
            assert(b.contains(b[0]));
            lemma_same_keys_same_records(a, b, b[0]);
        }
    } else {
        let x = a.last();
        assert(a.contains(x));
        lemma_same_keys_same_records(a, b, x);
        let y = b.last();
        assert(b.contains(y));
        lemma_same_keys_same_records(a, b, y);
        let i = choose|i: int| 0 <= i < b.len() && b[i] == x;
        let j = choose|j: int| 0 <= j < a.len() && a[j] == y;
        lemma_last_is_greatest(b, i);
        lemma_last_is_greatest(a, j);
        lemma_record_le_antisymmetric(x, y);
        lemma_with_key_drop_last(a, x.port, x.name);
        lemma_with_key_drop_last(b, x.port, x.name);
        assert(x == y);
        assert forall|port: u16, name: Seq<char>| #[trigger]
            with_key(a.drop_last(), port, name) == with_key(b.drop_last(), port, name) by {
            lemma_with_key_drop_last(a, port, name);
            lemma_with_key_drop_last(b, port, name);
        }
        lemma_stable_sort_is_unique(a.drop_last(), b.drop_last());
        assert(a == a.drop_last().push(x));
        assert(b == b.drop_last().push(y));
    }
}

} // verus!
