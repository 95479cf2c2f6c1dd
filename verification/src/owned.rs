//! What belongs to a client, and numbers in order.

use std::collections::HashMap;

use vstd::prelude::*;
use vstd::std_specs::hash::*;
use vstd::std_specs::iter::IteratorSpec;

verus! {

broadcast use {group_hash_axioms, vstd::set::group_set_axioms};

/// Something that belongs to a client.
pub(crate) trait Owned: Sized {
    spec fn owner(&self) -> Seq<char>;

    fn is_owned_by(&self, id: &str) -> (res: bool)
        ensures
            res == (self.owner() == id@),
    ;
}

// ---------------------------------------------------------------------------
// Numbers in order
// ---------------------------------------------------------------------------

/// Whether each number is smaller than those after it.
pub open spec fn ascending(list: Seq<i64>) -> bool {
    forall|i: int, j: int| 0 <= i < j < list.len() ==> #[trigger] list[i] < #[trigger] list[j]
}

/// Whether `list` holds exactly these numbers, in order.
pub open spec fn lists(list: Seq<i64>, numbers: Set<i64>) -> bool {
    &&& ascending(list)
    &&& forall|n: i64|
        #![trigger list.contains(n)]
        #![trigger numbers.contains(n)]
        list.contains(n) <==> numbers.contains(n)
}

/// These numbers, in order.
pub open spec fn in_order(numbers: Set<i64>) -> Seq<i64> {
    choose|list: Seq<i64>| lists(list, numbers)
}

/// Without its last number, a list holds the other numbers.
proof fn lemma_lists_others(list: Seq<i64>, numbers: Set<i64>)
    requires
        lists(list, numbers),
        list.len() > 0,
    ensures
        numbers.contains(list.last()),
        lists(list.drop_last(), numbers.remove(list.last())),
        forall|n: i64| #[trigger] numbers.contains(n) ==> n <= list.last(),
{
    let rest = list.drop_last();
    let last = list.len() - 1;
    assert(list.contains(list[last]));
    assert forall|n: i64| rest.contains(n) <==> #[trigger] numbers.remove(list.last()).contains(
        n,
    ) by {
        if rest.contains(n) {
            let i = choose|i: int| 0 <= i < rest.len() && rest[i] == n;
            assert(list[i] == n && list[i] < list[last]);
            assert(list.contains(n));
        }
        if numbers.contains(n) && n != list.last() {
            assert(list.contains(n));
            let i = choose|i: int| 0 <= i < list.len() && list[i] == n;
            assert(rest[i] == n);
        }
    }
    assert forall|i: int, j: int| 0 <= i < j < rest.len() implies #[trigger] rest[i]
        < #[trigger] rest[j] by {
        assert(list[i] < list[j]);
    }
    assert forall|n: i64| #[trigger] numbers.contains(n) implies n <= list.last() by {
        assert(list.contains(n));
        let i = choose|i: int| 0 <= i < list.len() && list[i] == n;
        if i < last {
            assert(list[i] < list[last]);
        }
    }
}

/// There is one way to list numbers in order.
proof fn lemma_one_order(a: Seq<i64>, b: Seq<i64>, numbers: Set<i64>)
    requires
        lists(a, numbers),
        lists(b, numbers),
    ensures
        a == b,
    decreases a.len(),
{
    if a.len() == 0 {
        if b.len() > 0 {
            assert(b.contains(b[0]));
            assert(a.contains(b[0]));
        }
        assert(a =~= b);
    } else {
        assert(a.contains(a[0]));
        assert(b.contains(a[0]));
        assert(b.len() > 0);
        lemma_lists_others(a, numbers);
        lemma_lists_others(b, numbers);
        assert(a.last() == b.last());
        lemma_one_order(a.drop_last(), b.drop_last(), numbers.remove(a.last()));
        assert(a =~= a.drop_last().push(a.last()));
        assert(b =~= b.drop_last().push(b.last()));
    }
}

/// What lists numbers in order is their order.
pub proof fn lemma_in_order(list: Seq<i64>, numbers: Set<i64>)
    requires
        lists(list, numbers),
    ensures
        in_order(numbers) == list,
{
    lemma_one_order(in_order(numbers), list, numbers);
}

/// A number can be added to a list in order.
proof fn lemma_with_number(list: Seq<i64>, numbers: Set<i64>, n: i64) -> (with: Seq<i64>)
    requires
        lists(list, numbers),
        !numbers.contains(n),
    ensures
        lists(with, numbers.insert(n)),
        with.len() == list.len() + 1,
    decreases list.len(),
{
    if list.len() == 0 || list.last() < n {
        let with = list.push(n);
        if list.len() > 0 {
            lemma_lists_others(list, numbers);
        }
        assert forall|i: int, j: int| 0 <= i < j < with.len() implies #[trigger] with[i]
            < #[trigger] with[j] by {
            if j == list.len() {
                assert(list.contains(list[i]));
            }
        }
        assert forall|m: i64| with.contains(m) <==> #[trigger] numbers.insert(n).contains(m) by {
            if with.contains(m) && m != n {
                let i = choose|i: int| 0 <= i < with.len() && with[i] == m;
                assert(list[i] == m);
                assert(list.contains(m));
            }
            if numbers.contains(m) {
                assert(list.contains(m));
                let i = choose|i: int| 0 <= i < list.len() && list[i] == m;
                assert(with[i] == m);
            }
            assert(with[list.len() as int] == n);
        }
        with
    } else {
        let last = list.last();
        lemma_lists_others(list, numbers);
        let front = lemma_with_number(list.drop_last(), numbers.remove(last), n);
        let with = front.push(last);
        let fewer = numbers.remove(last).insert(n);
        assert forall|i: int, j: int| 0 <= i < j < with.len() implies #[trigger] with[i]
            < #[trigger] with[j] by {
            if j == front.len() {
                assert(front.contains(front[i]));
                assert(fewer.contains(front[i]));
            } else {
                assert(front[i] < front[j]);
            }
        }
        assert forall|m: i64| with.contains(m) <==> #[trigger] numbers.insert(n).contains(m) by {
            if with.contains(m) && m != last {
                let i = choose|i: int| 0 <= i < with.len() && with[i] == m;
                assert(front[i] == m);
                assert(front.contains(m));
                assert(fewer.contains(m));
            }
            if numbers.insert(n).contains(m) && m != last {
                assert(fewer.contains(m));
                assert(front.contains(m));
                let i = choose|i: int| 0 <= i < front.len() && front[i] == m;
                assert(with[i] == m);
            }
            assert(with[front.len() as int] == last);
        }
        with
    }
}

/// Finitely many numbers can be listed in order, each once.
proof fn lemma_order_exists(numbers: Set<i64>) -> (list: Seq<i64>)
    requires
        numbers.finite(),
    ensures
        lists(list, numbers),
        list.len() == numbers.len(),
    decreases numbers.len(),
{
    if numbers.len() == 0 {
        let list = Seq::<i64>::empty();
        assert(numbers =~= Set::<i64>::empty());
        assert forall|n: i64| list.contains(n) <==> #[trigger] numbers.contains(n) by {}
        list
    } else {
        let n = numbers.choose();
        let rest = lemma_order_exists(numbers.remove(n));
        let list = lemma_with_number(rest, numbers.remove(n), n);
        assert(numbers.remove(n).insert(n) =~= numbers);
        list
    }
}

/// Putting numbers in order keeps each of them, once.
pub proof fn lemma_in_order_lists(numbers: Set<i64>)
    requires
        numbers.finite(),
    ensures
        lists(in_order(numbers), numbers),
        in_order(numbers).len() == numbers.len(),
{
    let list = lemma_order_exists(numbers);
    lemma_in_order(list, numbers);
}

/// Add a number to a list in order.
fn insert_in_order(list: &mut Vec<i64>, n: i64)
    requires
        ascending(old(list)@),
        !old(list)@.contains(n),
    ensures
        ascending(final(list)@),
        forall|m: i64| #[trigger]
            final(list)@.contains(m) <==> old(list)@.contains(m) || m == n,
{
    let ghost before = list@;
    let mut at: usize = list.len();
    while at > 0 && list[at - 1] > n
        invariant
            at <= list@.len(),
            list@ == before,
            forall|i: int| at <= i < list@.len() ==> n < #[trigger] list@[i],
        decreases at,
    {
        at -= 1;
    }
    assert forall|i: int| 0 <= i < at implies #[trigger] before[i] < n by {
        assert(before.contains(before[at - 1]));
        if i < at - 1 {
            assert(before[i] < before[at - 1]);
        }
    }
    list.insert(at, n);
    proof {
        let after = list@;
        assert forall|i: int, j: int| 0 <= i < j < after.len() implies #[trigger] after[i]
            < #[trigger] after[j] by {
            let k = if i < at {
                i
            } else {
                i - 1
            };
            let l = if j < at {
                j
            } else {
                j - 1
            };
            if i != at && j != at {
                assert(before[k] < before[l]);
            } else if i == at {
                assert(n < before[l]);
            } else {
                assert(before[k] < n);
            }
        }
        assert forall|m: i64| #[trigger] after.contains(m) <==> before.contains(m) || m == n by {
            if after.contains(m) {
                let i = choose|i: int| 0 <= i < after.len() && after[i] == m;
                if i < at {
                    assert(before[i] == m);
                } else if i > at {
                    assert(before[i - 1] == m);
                }
            }
            if before.contains(m) {
                let i = choose|i: int| 0 <= i < before.len() && before[i] == m;
                if i < at {
                    assert(after[i] == m);
                } else {
                    assert(after[i + 1] == m);
                }
            }
            assert(after[at as int] == n);
        }
    }
}

// ---------------------------------------------------------------------------
// The numbers of a client
// ---------------------------------------------------------------------------

/// The numbers under which something of a client is kept.
pub(crate) open spec fn numbers_of<T: Owned>(map: Map<i64, T>, id: Seq<char>) -> Set<i64> {
    map.dom().filter(|n: i64| map[n].owner() == id)
}

/// Whether one of the first `n` entries maps `number` to something of a client.
spec fn found<T: Owned>(
    entries: Seq<(&i64, &T)>,
    n: int,
    id: Seq<char>,
    number: i64,
) -> bool {
    exists|j: int| 0 <= j < n && *(#[trigger] entries[j]).0 == number && entries[j].1.owner() == id
}

/// The numbers under which something of a client is kept, in order.
pub(crate) fn numbers_in_order<T: Owned>(map: &HashMap<i64, T>, id: &str) -> (list: Vec<i64>)
    ensures
        lists(list@, numbers_of(map@, id@)),
{
    let mut list: Vec<i64> = Vec::new();
    let ghost entries = map@;
    for entry in it: map.iter()
        invariant
            entries == map@,
            it.seq() == spec_hash_map_iter(map).remaining(),
            it.seq().no_duplicates(),
            ascending(list@),
            forall|n: i64| #[trigger]
                list@.contains(n) <==> found(it.seq(), it.index() as int, id@, n),
    {
        let ghost i = it.index() as int;
        let ghost all = it.seq();
        assert(all[i] == entry);
        assert(entries.contains_key(*all[i].0) && entries[*all[i].0] == *all[i].1);
        let (number, item) = entry;
        let ghost before = list@;
        let mine = item.is_owned_by(id);
        if mine {
            proof {
                if before.contains(*number) {
                    let j = choose|j: int|
                        0 <= j < i && *(#[trigger] all[j]).0 == *number && all[j].1.owner() == id@;
                    assert(entries.contains_key(*all[j].0) && entries[*all[j].0] == *all[j].1);
                    assert(all[j] == all[i]);
                }
            }
            insert_in_order(&mut list, *number);
        }
        assert forall|n: i64| #[trigger] list@.contains(n) <==> found(all, i + 1, id@, n) by {
            assert(found(all, i, id@, n) ==> found(all, i + 1, id@, n));
            if mine && n == *number {
                assert(*all[i].0 == n);
            }
        }
    }
    proof {
        let all = spec_hash_map_iter(map).remaining();
        assert forall|n: i64| list@.contains(n) <==> #[trigger] numbers_of(map@, id@).contains(
            n,
        ) by {
            if entries.contains_key(n) && entries[n].owner() == id@ {
                assert(all.contains((&n, &entries[n])));
                let j = choose|j: int| 0 <= j < all.len() && all[j] == (&n, &entries[n]);
                assert(*all[j].0 == n);
            }
            if list@.contains(n) {
                let j = choose|j: int|
                    0 <= j < all.len() && *(#[trigger] all[j]).0 == n && all[j].1.owner() == id@;
                assert(entries.contains_key(*all[j].0) && entries[*all[j].0] == *all[j].1);
            }
        }
    }
    list
}

} // verus!
