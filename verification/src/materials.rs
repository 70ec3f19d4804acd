//! Counting the blocks of a structure by type.

use vstd::prelude::*;
use vstd::multiset::Multiset;
use counter::Counter;
use crate::block::{BlockStateView, AIR};
use crate::region::Region;
use crate::text::{ends_with, has_suffix, str_eq};

verus! {

/// What `str::replace` of std gives for the text `s`, the pattern `from`
/// and the replacement `to`: the text with every match of the pattern
/// replaced.
pub uninterp spec fn replaced(s: Seq<char>, from: Seq<char>, to: Seq<char>) -> Seq<char>;

/// The name under which a block of the type `name` is counted: air is not
/// counted, and a sign on a wall counts as a sign.
pub open spec fn material_name(name: Seq<char>) -> Option<Seq<char>> {
    if name == AIR@ {
        None
    } else if has_suffix(name, "_wall_sign"@) {
        Some(replaced(name, "_wall_sign"@, "_sign"@))
    } else {
        Some(name)
    }
}

/// The counts before anything is counted.
pub open spec fn no_counts() -> Map<Seq<char>, int> {
    Map::empty()
}

/// How often `key` has been counted.
pub open spec fn count_of(counts: Map<Seq<char>, int>, key: Seq<char>) -> int {
    if counts.dom().contains(key) {
        counts[key]
    } else {
        0
    }
}

/// The counts with one block of the type `name` added.
pub open spec fn bumped(counts: Map<Seq<char>, int>, name: Seq<char>) -> Map<Seq<char>, int> {
    match material_name(name) {
        None => counts,
        Some(key) => counts.insert(key, count_of(counts, key) + 1),
    }
}

/// The counts with the blocks `blocks` added.
pub open spec fn tally(counts: Map<Seq<char>, int>, blocks: Seq<BlockStateView>) -> Map<
    Seq<char>,
    int,
>
    decreases blocks.len(),
{
    if blocks.len() == 0 {
        counts
    } else {
        bumped(tally(counts, blocks.drop_last()), blocks.last().name)
    }
}

/// The counts of the blocks of all `regions`.
pub open spec fn tally_all(regions: Seq<Region>) -> Map<Seq<char>, int>
    decreases regions.len(),
{
    if regions.len() == 0 {
        no_counts()
    } else {
        tally(tally_all(regions.drop_last()), regions.last()@.blocks)
    }
}

/// `list` holds the counts: one pair for each name that was counted, with
/// its count.
pub open spec fn lists(list: Seq<(String, i32)>, counts: Map<Seq<char>, int>) -> bool {
    &&& forall|i: int|
        0 <= i < list.len() ==> counts.dom().contains((#[trigger] list[i]).0@) && counts[list[i].0@]
            == list[i].1
    &&& forall|key: Seq<char>| #[trigger]
        counts.dom().contains(key) ==> exists|i: int|
            0 <= i < list.len() && (#[trigger] list[i]).0@ == key
    &&& forall|i: int, j: int|
        0 <= i < j < list.len() ==> (#[trigger] list[i]).0@ != (#[trigger] list[j]).0@
}

/// The counts of `list` never rise from one pair to the next.
pub open spec fn descending(list: Seq<(String, i32)>) -> bool {
    forall|i: int, j: int| 0 <= i < j < list.len() ==> (#[trigger] list[i]).1 >= (#[trigger] list[j]).1
}

/// The type `Counter` of the crate `counter`: a hash map from keys to their
/// counts. Nothing of its inside is known here.
#[verifier::external_type_specification]
#[verifier::external_body]
#[verifier::reject_recursive_types(T)]
#[verifier::reject_recursive_types(N)]
#[verifier::reject_recursive_types(S)]
pub struct ExCounter<T, N, S>(Counter<T, N, S>);

/// What a counter holds: the count of every key that it has an entry for.
pub uninterp spec fn counted(c: Counter<String, i32>) -> Map<Seq<char>, int>;

/// `Counter::new` of the crate `counter`: the new counter has no entries.
#[verifier::external_body]
fn counter_new() -> (made: Counter<String, i32>)
    ensures
        counted(made) == no_counts(),
{
    Counter::new()
}

/// Indexing a `Counter` by a key: it gives the count of the key's entry,
/// and zero where the counter has no entry for the key.
#[verifier::external_body]
fn counter_get(c: &Counter<String, i32>, key: &String) -> (n: i32)
    ensures
        n == count_of(counted(*c), key@),
{
    c[key]
}

/// `Counter::update` of the crate `counter`, handed one key: a key without
/// an entry gets one that starts at zero, and the count of the key's entry
/// rises by one. Nothing else changes. The addition must not overflow.
#[verifier::external_body]
fn counter_bump(c: &mut Counter<String, i32>, key: &String)
    requires
        count_of(counted(*old(c)), key@) < i32::MAX,
    ensures
        counted(*final(c)) == counted(*old(c)).insert(key@, count_of(counted(*old(c)), key@) + 1),
{
    c.update([key.clone()]);
}

/// Walking the entries of a `Counter`: each entry comes once, as a pair of
/// its key and its count. The order is that of the hash map inside and is
/// not fixed.
#[verifier::external_body]
fn counter_entries(c: &Counter<String, i32>) -> (list: Vec<(String, i32)>)
    ensures
        lists(list@, counted(*c)),
{
    c.iter().map(|(key, n)| (key.clone(), *n)).collect()
}

/// `str::replace` of std with a text as the pattern. What it gives depends
/// on the three texts alone.
#[verifier::external_body]
fn replace_text(s: &str, from: &str, to: &str) -> (r: String)
    ensures
        r@ == replaced(s@, from@, to@),
{
    s.replace(from, to)
}

/// The name under which a block of the type `name` is counted, if it is
/// counted at all.
pub fn material_key(name: &str) -> (key: Option<String>)
    ensures
        match key {
            Some(k) => material_name(name@) == Some(k@),
            None => material_name(name@) is None,
        },
{
    if str_eq(name, AIR) {
        None
    } else if ends_with(name, "_wall_sign") {
        Some(replace_text(name, "_wall_sign", "_sign"))
    } else {
        Some(name.to_owned())
    }
}

/// Counting more blocks takes no count back.
proof fn lemma_tally_grows(counts: Map<Seq<char>, int>, blocks: Seq<BlockStateView>, key: Seq<char>)
    ensures
        count_of(tally(counts, blocks), key) >= count_of(counts, key),
    decreases blocks.len(),
{
    if blocks.len() > 0 {
        lemma_tally_grows(counts, blocks.drop_last(), key);
    }
}

proof fn lemma_tally_all_grows(regions: Seq<Region>, n: int, key: Seq<char>)
    requires
        0 <= n <= regions.len(),
    ensures
        count_of(tally_all(regions), key) >= count_of(tally_all(regions.take(n)), key),
    decreases regions.len(),
{
    if n == regions.len() {
        assert(regions.take(n) =~= regions);
    } else {
        lemma_tally_all_grows(regions.drop_last(), n, key);
        assert(regions.drop_last().take(n) =~= regions.take(n));
        lemma_tally_grows(tally_all(regions.drop_last()), regions.last()@.blocks, key);
    }
}

/// Adds the blocks of `region` to the counter. Gives `false`, part of the
/// way, where a count would leave the range of `i32`.
fn tally_region(c: &mut Counter<String, i32>, region: &Region) -> (done: bool)
    requires
        region.wf(),
        forall|key: Seq<char>| count_of(counted(*old(c)), key) <= i32::MAX,
    ensures
        forall|key: Seq<char>| count_of(counted(*final(c)), key) <= i32::MAX,
        done ==> counted(*final(c)) == tally(counted(*old(c)), region@.blocks),
        !done ==> exists|key: Seq<char>|
            count_of(tally(counted(*old(c)), region@.blocks), key) > i32::MAX,
{
    let n = region.volume();
    let mut i: usize = 0;
    assert(region@.blocks.take(0) =~= Seq::<BlockStateView>::empty());
    while i < n
        invariant
            i <= n,
            n == region@.blocks.len(),
            region.wf(),
            forall|key: Seq<char>| count_of(counted(*c), key) <= i32::MAX,
            counted(*c) == tally(counted(*old(c)), region@.blocks.take(i as int)),
        decreases n - i,
    {
        let ghost next = region@.blocks.take(i + 1);
        proof {
            assert(next.drop_last() =~= region@.blocks.take(i as int));
            assert(next.last() == region@.blocks[i as int]);
        }
        match material_key(region.block(i).name.as_str()) {
            None => {},
            Some(key) => {
                if counter_get(c, &key) == i32::MAX {
                    proof {
                        let rest = region@.blocks.skip(i + 1);
                        assert(count_of(tally(counted(*old(c)), next), key@) > i32::MAX);
                        lemma_tally_more(counted(*old(c)), region@.blocks, i + 1, key@);
                    }
                    return false;
                }
                let ghost before = counted(*c);
                counter_bump(c, &key);
                assert forall|k: Seq<char>| count_of(counted(*c), k) <= i32::MAX by {
                    assert(count_of(before, k) <= i32::MAX);
                }
            },
        }
        i += 1;
    }
    assert(region@.blocks.take(n as int) =~= region@.blocks);
    true
}

/// The count after all blocks is no less than the count after some.
proof fn lemma_tally_more(
    counts: Map<Seq<char>, int>,
    blocks: Seq<BlockStateView>,
    n: int,
    key: Seq<char>,
)
    requires
        0 <= n <= blocks.len(),
    ensures
        count_of(tally(counts, blocks), key) >= count_of(tally(counts, blocks.take(n)), key),
    decreases blocks.len(),
{
    if n == blocks.len() {
        assert(blocks.take(n) =~= blocks);
    } else {
        lemma_tally_more(counts, blocks.drop_last(), n, key);
        assert(blocks.drop_last().take(n) =~= blocks.take(n));
    }
}

/// The place of a pair with the greatest count.
fn greatest(list: &Vec<(String, i32)>) -> (m: usize)
    requires
        list@.len() > 0,
    ensures
        m < list@.len(),
        forall|i: int| 0 <= i < list@.len() ==> (#[trigger] list@[i]).1 <= list@[m as int].1,
{
    let mut m: usize = 0;
    let mut i: usize = 1;
    while i < list.len()
        invariant
            1 <= i <= list.len(),
            m < i,
            forall|j: int| 0 <= j < i ==> (#[trigger] list@[j]).1 <= list@[m as int].1,
        decreases list.len() - i,
    {
        if list[i].1 > list[m].1 {
            m = i;
        }
        i += 1;
    }
    m
}

/// Orders the pairs by falling count. Nothing is added and nothing lost.
pub fn by_count(list: Vec<(String, i32)>) -> (sorted: Vec<(String, i32)>)
    ensures
        sorted@.to_multiset() == list@.to_multiset(),
        descending(sorted@),
{
    let mut rest = list;
    let mut sorted: Vec<(String, i32)> = Vec::new();
    proof {
        sorted@.to_multiset_ensures();
        assert(sorted@.to_multiset().add(rest@.to_multiset()) =~= list@.to_multiset());
    }
    while rest.len() > 0
        invariant
            sorted@.to_multiset().add(rest@.to_multiset()) == list@.to_multiset(),
            forall|i: int, j: int|
                0 <= i < sorted@.len() && 0 <= j < rest@.len() ==> (#[trigger] sorted@[i]).1 >= (
                #[trigger] rest@[j]).1,
            descending(sorted@),
        decreases rest@.len(),
    {
        let m = greatest(&rest);
        let ghost before = rest@;
        let ghost ordered = sorted@;
        let top = rest.remove(m);
        sorted.push(top);
        proof {
            assert forall|i: int| 0 <= i < rest@.len() implies #[trigger] rest@[i] == before[if i
                < m {
                i
            } else {
                i + 1
            }] by {}
            assert forall|i: int| 0 <= i < ordered.len() implies #[trigger] sorted@[i]
                == ordered[i] by {}
            assert(sorted@[ordered.len() as int] == before[m as int]);
            before.to_multiset_ensures();
            ordered.to_multiset_ensures();
            assert(before.contains(top));
            assert(sorted@.to_multiset().add(rest@.to_multiset()) =~= ordered.to_multiset().add(
                before.to_multiset(),
            ));
        }
    }
    proof {
        rest@.to_multiset_ensures();
        assert(rest@.to_multiset() =~= Multiset::<(String, i32)>::empty()) by {
            assert(rest@.to_multiset().len() == 0);
        }
        assert(sorted@.to_multiset().add(rest@.to_multiset()) =~= sorted@.to_multiset());
    }
    sorted
}

/// A list that holds the counts still holds them after its pairs have
/// changed places.
pub proof fn lemma_lists_rearranged(
    list: Seq<(String, i32)>,
    other: Seq<(String, i32)>,
    counts: Map<Seq<char>, int>,
)
    requires
        lists(list, counts),
        other.to_multiset() == list.to_multiset(),
    ensures
        lists(other, counts),
{
    list.to_multiset_ensures();
    other.to_multiset_ensures();
    assert forall|i: int| 0 <= i < other.len() implies counts.dom().contains(
        (#[trigger] other[i]).0@,
    ) && counts[other[i].0@] == other[i].1 by {
        lemma_shared(other, list, other[i]);
        let k = choose|k: int| 0 <= k < list.len() && list[k] == other[i];
        assert(counts.dom().contains(list[k].0@));
    }
    assert forall|key: Seq<char>| #[trigger] counts.dom().contains(key) implies exists|i: int|
        0 <= i < other.len() && (#[trigger] other[i]).0@ == key by {
        let k = choose|k: int| 0 <= k < list.len() && (#[trigger] list[k]).0@ == key;
        lemma_shared(list, other, list[k]);
        let i = choose|i: int| 0 <= i < other.len() && other[i] == list[k];
        assert(other[i].0@ == key);
    }
    assert forall|i: int, j: int| 0 <= i < j < other.len() implies (#[trigger] other[i]).0@ != (
    #[trigger] other[j]).0@ by {
        if other[i].0@ == other[j].0@ {
            lemma_shared(other, list, other[i]);
            lemma_shared(other, list, other[j]);
            let a = choose|a: int| 0 <= a < list.len() && list[a] == other[i];
            let b = choose|b: int| 0 <= b < list.len() && list[b] == other[j];
            if a != b {
                assert(list[a].0@ == list[b].0@);
                if a < b {
                    assert(list[a].0@ != list[b].0@);
                } else {
                    assert(list[b].0@ != list[a].0@);
                }
            } else {
                assert(other[i] == other[j]);
                lemma_twice(other, i, j);
                assert(list.to_multiset().count(list[a]) >= 2);
                lemma_once(list, a);
            }
        }
    }
}

/// Two lists with the same values hold the same values.
proof fn lemma_shared<A>(s: Seq<A>, t: Seq<A>, a: A)
    requires
        s.to_multiset() == t.to_multiset(),
        s.contains(a),
    ensures
        t.contains(a),
{
    s.to_multiset_ensures();
    t.to_multiset_ensures();
    assert(s.to_multiset().count(a) > 0);
    assert(t.to_multiset().count(a) > 0);
}

/// A value that stands at two places of a list counts twice at least.
proof fn lemma_twice<A>(s: Seq<A>, i: int, j: int)
    requires
        0 <= i < j < s.len(),
        s[i] == s[j],
    ensures
        s.to_multiset().count(s[i]) >= 2,
{
    broadcast use vstd::multiset::group_multiset_axioms;

    let rest = s.remove(j);
    s.to_multiset_ensures();
    rest.to_multiset_ensures();
    assert(rest[i] == s[i]);
    assert(rest.contains(s[i]));
    assert(rest.to_multiset().count(s[i]) > 0);
    assert(rest.to_multiset() =~= s.to_multiset().remove(s[j]));
}

/// A pair of a list that holds each name once counts once.
proof fn lemma_once(list: Seq<(String, i32)>, a: int)
    requires
        0 <= a < list.len(),
        forall|i: int, j: int|
            0 <= i < j < list.len() ==> (#[trigger] list[i]).0@ != (#[trigger] list[j]).0@,
    ensures
        list.to_multiset().count(list[a]) <= 1,
{
    broadcast use vstd::multiset::group_multiset_axioms;

    let rest = list.remove(a);
    list.to_multiset_ensures();
    rest.to_multiset_ensures();
    assert(rest.to_multiset() =~= list.to_multiset().remove(list[a]));
    if rest.to_multiset().count(list[a]) > 0 {
        assert(rest.contains(list[a]));
        let k = choose|k: int| 0 <= k < rest.len() && rest[k] == list[a];
        if k < a {
            assert(list[k] == list[a]);
            assert(list[k].0@ != list[a].0@);
        } else {
            assert(list[k + 1] == list[a]);
            assert(list[a].0@ != list[k + 1].0@);
        }
    }
}

/// Counts the blocks of all regions by the name of their type and lists
/// the counts, the greatest first. Air is not counted, and a sign on a wall
/// counts as a sign. There is no list where a count leaves the range of
/// `i32`.
pub fn materials(regions: &Vec<Region>) -> (r: Option<Vec<(String, i32)>>)
    requires
        forall|i: int| 0 <= i < regions@.len() ==> (#[trigger] regions@[i]).wf(),
    ensures
        match r {
            Some(list) => lists(list@, tally_all(regions@)) && descending(list@),
            None => exists|key: Seq<char>| count_of(tally_all(regions@), key) > i32::MAX,
        },
{
    let mut counter = counter_new();
    let mut i: usize = 0;
    assert(regions@.take(0) =~= Seq::<Region>::empty());
    while i < regions.len()
        invariant
            i <= regions.len(),
            forall|i: int| 0 <= i < regions@.len() ==> (#[trigger] regions@[i]).wf(),
            forall|key: Seq<char>| count_of(counted(counter), key) <= i32::MAX,
            counted(counter) == tally_all(regions@.take(i as int)),
        decreases regions.len() - i,
    {
        let ghost next = regions@.take(i + 1);
        proof {
            assert(next.drop_last() =~= regions@.take(i as int));
            assert(next.last() == regions@[i as int]);
        }
        if !tally_region(&mut counter, &regions[i]) {
            proof {
                let key = choose|key: Seq<char>| count_of(tally_all(next), key) > i32::MAX;
                lemma_tally_all_grows(regions@, i + 1, key);
            }
            return None;
        }
        i += 1;
    }
    assert(regions@.take(regions@.len() as int) =~= regions@);
    let list = counter_entries(&counter);
    let sorted = by_count(list);
    proof {
        lemma_lists_rearranged(list@, sorted@, counted(counter));
    }
    Some(sorted)
}

} // verus!
