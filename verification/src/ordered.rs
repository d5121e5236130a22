//! Sequences of items ordered by an integer key: how an item is found from a
//! position, and how a sequence is brought into ascending order.

use vstd::prelude::*;
use vstd::seq_lib::to_multiset_insert;

verus! {

/// An item that is ordered by an integer key.
pub trait Keyed {
    /// The key by which the item is ordered.
    spec fn key(&self) -> int;

    /// Reads the key.
    fn key_value(&self) -> (k: i64)
        ensures
            k == self.key(),
    ;
}

/// The keys never decrease along the sequence.
pub open spec fn is_sorted<T: Keyed>(s: Seq<T>) -> bool {
    forall|i: int, j: int| 0 <= i <= j < s.len() ==> s[i].key() <= s[j].key()
}

/// Some item has a key at or below `x`.
pub open spec fn has_before<T: Keyed>(s: Seq<T>, x: int) -> bool {
    exists|j: int| 0 <= j < s.len() && s[j].key() <= x
}

/// Some item has a key at or above `x`.
pub open spec fn has_after<T: Keyed>(s: Seq<T>, x: int) -> bool {
    exists|j: int| 0 <= j < s.len() && s[j].key() >= x
}

/// `i` is the place of the item before `x`: its key is the greatest of
/// those at or below `x`, and it is the first item with that key.
pub open spec fn is_before<T: Keyed>(s: Seq<T>, x: int, i: int) -> bool {
    &&& 0 <= i < s.len()
    &&& s[i].key() <= x
    &&& forall|j: int| 0 <= j < s.len() && s[j].key() <= x ==> s[j].key() <= s[i].key()
    &&& forall|j: int| 0 <= j < i ==> s[j].key() != s[i].key()
}

/// `i` is the place of the item after `x`: its key is the least of those
/// at or above `x`, and it is the last item with that key.
pub open spec fn is_after<T: Keyed>(s: Seq<T>, x: int, i: int) -> bool {
    &&& 0 <= i < s.len()
    &&& s[i].key() >= x
    &&& forall|j: int| 0 <= j < s.len() && s[j].key() >= x ==> s[j].key() >= s[i].key()
    &&& forall|j: int| i < j < s.len() ==> s[j].key() != s[i].key()
}

/// The place of the item before `x`, where there is one.
pub open spec fn before_index<T: Keyed>(s: Seq<T>, x: int) -> int {
    choose|i: int| is_before(s, x, i)
}

/// The place of the item after `x`, where there is one.
pub open spec fn after_index<T: Keyed>(s: Seq<T>, x: int) -> int {
    choose|i: int| is_after(s, x, i)
}

/// At most one place is the place before `x`.
pub proof fn lemma_before_unique<T: Keyed>(s: Seq<T>, x: int, i: int, k: int)
    requires
        is_before(s, x, i),
        is_before(s, x, k),
    ensures
        i == k,
{
    assert(s[i].key() <= s[k].key());
    assert(s[k].key() <= s[i].key());
}

/// At most one place is the place after `x`.
pub proof fn lemma_after_unique<T: Keyed>(s: Seq<T>, x: int, i: int, k: int)
    requires
        is_after(s, x, i),
        is_after(s, x, k),
    ensures
        i == k,
{
    assert(s[i].key() >= s[k].key());
    assert(s[k].key() >= s[i].key());
}

/// The item before `x` and the item after `x` enclose `x`, and no key of
/// the sequence lies strictly between theirs.
pub proof fn lemma_bracket_is_tight<T: Keyed>(s: Seq<T>, x: int, i: int, k: int, j: int)
    requires
        is_before(s, x, i),
        is_after(s, x, k),
        0 <= j < s.len(),
    ensures
        s[i].key() <= x <= s[k].key(),
        !(s[i].key() < s[j].key() < s[k].key()),
{
}

/// Where some key is at or below `x` there is an item before `x`, and
/// `before_index` is its place.
pub proof fn lemma_before_exists<T: Keyed>(s: Seq<T>, x: int)
    requires
        has_before(s, x),
    ensures
        is_before(s, x, before_index(s, x)),
    decreases s.len(),
{
    let front = s.drop_last();
    let last = s.len() - 1;
    assert(forall|j: int| 0 <= j < front.len() ==> front[j] == s[j]);
    if has_before(front, x) {
        lemma_before_exists(front, x);
        let i = before_index(front, x);
        if s[last].key() <= x && s[last].key() > front[i].key() {
            assert(is_before(s, x, last));
        } else {
            assert(is_before(s, x, i));
        }
    } else {
        assert(forall|j: int| 0 <= j < front.len() ==> front[j].key() > x);
        assert(is_before(s, x, last));
    }
}

/// Where some key is at or above `x` there is an item after `x`, and
/// `after_index` is its place.
pub proof fn lemma_after_exists<T: Keyed>(s: Seq<T>, x: int)
    requires
        has_after(s, x),
    ensures
        is_after(s, x, after_index(s, x)),
    decreases s.len(),
{
    let front = s.drop_last();
    let last = s.len() - 1;
    assert(forall|j: int| 0 <= j < front.len() ==> front[j] == s[j]);
    if s[last].key() >= x {
        if has_after(front, x) {
            lemma_after_exists(front, x);
            let i = after_index(front, x);
            if s[last].key() <= front[i].key() {
                assert(is_after(s, x, last));
            } else {
                assert(is_after(s, x, i));
            }
        } else {
            assert(forall|j: int| 0 <= j < front.len() ==> front[j].key() < x);
            assert(is_after(s, x, last));
        }
    } else {
        assert(has_after(front, x));
        lemma_after_exists(front, x);
        let i = after_index(front, x);
        assert(is_after(s, x, i));
    }
}

/// In a sorted sequence the positions that have an item before them and an
/// item after them are those from the first key to the last.
pub proof fn lemma_domain_of_sorted<T: Keyed>(s: Seq<T>, x: int)
    requires
        is_sorted(s),
        s.len() > 0,
    ensures
        has_before(s, x) <==> s.first().key() <= x,
        has_after(s, x) <==> x <= s.last().key(),
{
    if s.first().key() <= x {
        assert(0 <= 0 < s.len() && s[0].key() <= x);
    }
    if x <= s.last().key() {
        assert(s[s.len() - 1].key() >= x);
    }
}

/// Finds the item before `x`: the first of those whose key is the greatest
/// at or below `x`. There is none exactly when every key is above `x`.
pub fn index_before<T: Keyed>(items: &Vec<T>, x: i64) -> (r: Option<usize>)
    ensures
        r.is_some() <==> has_before(items@, x as int),
        r matches Some(i) ==> is_before(items@, x as int, i as int) && i == before_index(
            items@,
            x as int,
        ),
{
    let mut best: Option<usize> = None;
    let mut best_key: i64 = 0;
    let mut k: usize = 0;
    while k < items.len()
        invariant
            k <= items.len(),
            best is None ==> forall|j: int| 0 <= j < k ==> items@[j].key() > x,
            best matches Some(i) ==> i < k && best_key == items@[i as int].key() && is_before(
                items@.take(k as int),
                x as int,
                i as int,
            ),
        decreases items.len() - k,
    {
        let key: i64 = items[k].key_value();
        let ghost prefix = items@.take(k as int);
        let ghost next = items@.take(k + 1);
        proof {
            assert(forall|j: int| 0 <= j < k ==> next[j] == prefix[j]);
            assert(next[k as int] == items@[k as int]);
        }
        if key <= x {
            match best {
                None => {
                    best = Some(k);
                    best_key = key;
                },
                Some(_) => {
                    if key > best_key {
                        best = Some(k);
                        best_key = key;
                    }
                },
            }
        }
        k = k + 1;
    }
    proof {
        assert(items@.take(k as int) =~= items@);
        match best {
            Some(i) => {
                assert(items@[i as int].key() <= x);
                lemma_before_unique(items@, x as int, i as int, before_index(items@, x as int));
            },
            None => {},
        }
    }
    best
}

/// Finds the item after `x`: the last of those whose key is the least at or
/// above `x`. There is none exactly when every key is below `x`.
pub fn index_after<T: Keyed>(items: &Vec<T>, x: i64) -> (r: Option<usize>)
    ensures
        r.is_some() <==> has_after(items@, x as int),
        r matches Some(i) ==> is_after(items@, x as int, i as int) && i == after_index(
            items@,
            x as int,
        ),
{
    let mut best: Option<usize> = None;
    let mut best_key: i64 = 0;
    let mut k: usize = 0;
    while k < items.len()
        invariant
            k <= items.len(),
            best is None ==> forall|j: int| 0 <= j < k ==> items@[j].key() < x,
            best matches Some(i) ==> i < k && best_key == items@[i as int].key() && is_after(
                items@.take(k as int),
                x as int,
                i as int,
            ),
        decreases items.len() - k,
    {
        let key: i64 = items[k].key_value();
        let ghost prefix = items@.take(k as int);
        let ghost next = items@.take(k + 1);
        proof {
            assert(forall|j: int| 0 <= j < k ==> next[j] == prefix[j]);
            assert(next[k as int] == items@[k as int]);
        }
        if key >= x {
            match best {
                None => {
                    best = Some(k);
                    best_key = key;
                },
                Some(_) => {
                    if key <= best_key {
                        best = Some(k);
                        best_key = key;
                    }
                },
            }
        }
        k = k + 1;
    }
    proof {
        assert(items@.take(k as int) =~= items@);
        match best {
            Some(i) => {
                assert(items@[i as int].key() >= x);
                lemma_after_unique(items@, x as int, i as int, after_index(items@, x as int));
            },
            None => {},
        }
    }
    best
}

/// Where an item with key `x` is put into `s`: behind the last item whose
/// key is at or below `x`, so in front of the sequence where there is none.
pub open spec fn insertion_index<T: Keyed>(s: Seq<T>, x: int) -> int
    decreases s.len(),
{
    if s.len() == 0 {
        0
    } else if s.last().key() <= x {
        s.len() as int
    } else {
        insertion_index(s.drop_last(), x)
    }
}

/// `s` with `item` put in at its insertion index.
pub open spec fn insert_ordered<T: Keyed>(s: Seq<T>, item: T) -> Seq<T> {
    s.insert(insertion_index(s, item.key()), item)
}

/// `s` in ascending order of key, items of equal key in the order in which
/// they stand in `s`: each item in turn is put into the ordered sequence of
/// those in front of it.
pub open spec fn sorted_stable<T: Keyed>(s: Seq<T>) -> Seq<T>
    decreases s.len(),
{
    if s.len() == 0 {
        s
    } else {
        insert_ordered(sorted_stable(s.drop_last()), s.last())
    }
}

/// The insertion index lies within the sequence or just behind it; in a
/// sorted sequence every key in front of it is at or below `x` and every key
/// from it on is above `x`.
pub proof fn lemma_insertion_index<T: Keyed>(s: Seq<T>, x: int)
    ensures
        0 <= insertion_index(s, x) <= s.len(),
        forall|j: int| insertion_index(s, x) <= j < s.len() ==> s[j].key() > x,
        is_sorted(s) ==> forall|j: int| 0 <= j < insertion_index(s, x) ==> s[j].key() <= x,
    decreases s.len(),
{
    if s.len() > 0 && s.last().key() > x {
        let front = s.drop_last();
        lemma_insertion_index(front, x);
        assert(forall|j: int| 0 <= j < front.len() ==> front[j] == s[j]);
    }
}

/// Putting an item into a sorted sequence leaves it sorted.
pub proof fn lemma_insert_ordered_sorted<T: Keyed>(s: Seq<T>, item: T)
    requires
        is_sorted(s),
    ensures
        is_sorted(insert_ordered(s, item)),
{
    lemma_insertion_index(s, item.key());
    let k = insertion_index(s, item.key());
    let r = insert_ordered(s, item);
    assert forall|i: int, j: int| 0 <= i <= j < r.len() implies r[i].key() <= r[j].key() by {
        if i < k {
            assert(r[i] == s[i]);
        } else if i > k {
            assert(r[i] == s[i - 1]);
        }
        if j < k {
            assert(r[j] == s[j]);
        } else if j > k {
            assert(r[j] == s[j - 1]);
        }
    }
}

/// The ordered sequence is sorted, has the items of the given one, each as
/// often as there, and is the given one where that was sorted already.
pub proof fn lemma_sorted_stable<T: Keyed>(s: Seq<T>)
    ensures
        is_sorted(sorted_stable(s)),
        sorted_stable(s).len() == s.len(),
        sorted_stable(s).to_multiset() == s.to_multiset(),
        is_sorted(s) ==> sorted_stable(s) == s,
    decreases s.len(),
{
    if s.len() > 0 {
        let front = s.drop_last();
        let done = sorted_stable(front);
        lemma_sorted_stable(front);
        lemma_insertion_index(done, s.last().key());
        lemma_insert_ordered_sorted(done, s.last());
        to_multiset_insert(done, insertion_index(done, s.last().key()), s.last());
        assert(front.push(s.last()) =~= s);
        vstd::seq_lib::to_multiset_build(front, s.last());
        if is_sorted(s) {
            assert(forall|j: int| 0 <= j < front.len() ==> front[j] == s[j]);
            assert(is_sorted(front));
            assert(done == front);
            if front.len() > 0 {
                assert(front.last().key() <= s.last().key());
            }
            assert(insertion_index(front, s.last().key()) == front.len());
            assert(front.insert(front.len() as int, s.last()) =~= s);
        }
    }
}

/// Brings the items into ascending order of key. Items of equal key keep
/// their order, so an item pushed last goes behind its equals.
pub fn sort_stable<T: Keyed>(items: &mut Vec<T>)
    ensures
        final(items)@ == sorted_stable(old(items)@),
{
    let ghost given = items@;
    let n: usize = items.len();
    let mut i: usize = 0;
    while i < n
        invariant
            i <= n,
            n == given.len(),
            items@.len() == n,
            items@.take(i as int) == sorted_stable(given.take(i as int)),
            items@.skip(i as int) == given.skip(i as int),
        decreases n - i,
    {
        let ghost before = items@;
        let ghost done = before.take(i as int);
        let item: T = items.remove(i);
        let key: i64 = item.key_value();
        proof {
            assert(item == given.skip(i as int)[0]);
            assert(items@.take(i as int) =~= done);
            assert(done.take(i as int) =~= done);
        }
        let mut j: usize = i;
        while j > 0 && items[j - 1].key_value() > key
            invariant
                j <= i,
                i < n,
                items@.len() == n - 1,
                items@.take(i as int) == done,
                key == item.key(),
                insertion_index(done.take(j as int), key as int) == insertion_index(
                    done,
                    key as int,
                ),
            decreases j,
        {
            proof {
                let cut = done.take(j as int);
                assert(cut.last() == items@[j - 1]);
                assert(cut.drop_last() =~= done.take(j - 1));
            }
            j = j - 1;
        }
        proof {
            let cut = done.take(j as int);
            if j > 0 {
                assert(cut.last() == items@[j - 1]);
            }
            assert(insertion_index(cut, key as int) == j);
        }
        items.insert(j, item);
        proof {
            let wider = given.take(i + 1);
            assert(wider.drop_last() =~= given.take(i as int));
            assert(wider.last() == item);
            assert(items@.take(i + 1) =~= done.insert(j as int, item));
            let rest = items@.skip(i + 1);
            let want = given.skip(i + 1);
            assert forall|k: int| 0 <= k < rest.len() implies #[trigger] rest[k] == want[k] by {
                assert(before.skip(i as int)[k + 1] == given.skip(i as int)[k + 1]);
            }
            assert(rest =~= want);
        }
        i = i + 1;
    }
    proof {
        assert(items@.take(n as int) =~= items@);
        assert(given.take(n as int) =~= given);
    }
}

} // verus!
