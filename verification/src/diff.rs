use crate::axis::LogIdx;
use std::collections::HashMap;
use std::hash::Hash;
use vstd::prelude::*;
use vstd::std_specs::cmp::PartialEqSpec;
use vstd::std_specs::hash::obeys_key_model;

verus! {

/// One change to the rows of indexed data.
#[derive(PartialEq, Eq, Structural, Debug, Copy, Clone)]
pub enum IndexedDataOp {
    Insert(LogIdx),
    Delete(LogIdx),
    Move(LogIdx, LogIdx),
    Update(LogIdx),
}

/// For each key in `keys[from..]`, the index of its last occurrence.
pub open spec fn last_indices<K>(keys: Seq<K>, from: int) -> Map<K, usize>
    decreases keys.len() - from,
{
    if from < 0 || from >= keys.len() {
        Map::empty()
    } else {
        let m = last_indices(keys, from + 1);
        if m.dom().contains(keys[from]) {
            m
        } else {
            m.insert(keys[from], from as usize)
        }
    }
}

/// Where a matched row is reported: its new position, but no further along
/// than the last old position.
pub open spec fn reported_position(new_idx: int, old_len: int) -> int {
    if new_idx < old_len {
        new_idx
    } else {
        old_len - 1
    }
}

/// The unmatched old keys and the operations after matching the first `n`
/// new rows: a new row whose key is still unmatched among the old rows takes
/// that old row (a move when the position differs, an update when the rows
/// differ, both reported at `reported_position`), any other new row is an
/// insert at its new position.
pub open spec fn scan_new<T: PartialEq, K>(
    old_items: Seq<T>,
    old_keys: Seq<K>,
    new_items: Seq<T>,
    new_keys: Seq<K>,
    n: nat,
) -> (Map<K, usize>, Seq<IndexedDataOp>)
    decreases n,
{
    if n == 0 {
        (last_indices(old_keys, 0), Seq::empty())
    } else {
        let prev = scan_new(old_items, old_keys, new_items, new_keys, (n - 1) as nat);
        let m = prev.0;
        let ops = prev.1;
        let j = n - 1;
        let k = new_keys[j];
        if m.dom().contains(k) {
            let o = m[k];
            let p = reported_position(j, old_keys.len() as int);
            let moved = if o as int != j {
                ops.push(IndexedDataOp::Move(LogIdx(o), LogIdx(p as usize)))
            } else {
                ops
            };
            let updated = if !old_items[o as int].eq_spec(&new_items[j]) {
                moved.push(IndexedDataOp::Update(LogIdx(p as usize)))
            } else {
                moved
            };
            (m.remove(k), updated)
        } else {
            (m, ops.push(IndexedDataOp::Insert(LogIdx(j as usize))))
        }
    }
}

/// A delete for each of the first `n` old rows that is the last row of an
/// unmatched key, in ascending order.
pub open spec fn unmatched_deletes<K>(remaining: Map<K, usize>, old_keys: Seq<K>, n: nat) -> Seq<IndexedDataOp>
    decreases n,
{
    if n == 0 {
        Seq::empty()
    } else {
        let prev = unmatched_deletes(remaining, old_keys, (n - 1) as nat);
        let i = n - 1;
        if remaining.dom().contains(old_keys[i]) && remaining[old_keys[i]] == i {
            prev.push(IndexedDataOp::Delete(LogIdx(i as usize)))
        } else {
            prev
        }
    }
}

/// The operations that turn the old rows into the new rows, rows being
/// matched by key: the matches, moves, updates and inserts in the order of
/// the new rows, then a delete for each unmatched old row.
pub open spec fn diff_spec<T: PartialEq, K>(
    old_items: Seq<T>,
    old_keys: Seq<K>,
    new_items: Seq<T>,
    new_keys: Seq<K>,
) -> Seq<IndexedDataOp> {
    let scanned = scan_new(old_items, old_keys, new_items, new_keys, new_keys.len());
    scanned.1 + unmatched_deletes(scanned.0, old_keys, old_keys.len())
}

/// What `last_indices` holds: each key of `keys[from..]`, with the index of
/// its last occurrence.
proof fn lemma_last_indices<K>(keys: Seq<K>, from: int)
    requires
        0 <= from <= keys.len(),
        keys.len() <= usize::MAX,
    ensures
        forall|k: K|
            #[trigger] last_indices(keys, from).dom().contains(k) <==> exists|t: int|
                from <= t < keys.len() && keys[t] == k,
        forall|k: K|
            #[trigger] last_indices(keys, from).dom().contains(k) ==> {
                let t = last_indices(keys, from)[k] as int;
                &&& from <= t < keys.len()
                &&& keys[t] == k
                &&& forall|u: int| t < u < keys.len() ==> keys[u] != k
            },
    decreases keys.len() - from,
{
    if from < keys.len() {
        lemma_last_indices(keys, from + 1);
        let m = last_indices(keys, from + 1);
        assert forall|k: K|
            #[trigger] last_indices(keys, from).dom().contains(k) <==> exists|t: int|
                from <= t < keys.len() && keys[t] == k by {
            if exists|t: int| from <= t < keys.len() && keys[t] == k {
                let t = choose|t: int| from <= t < keys.len() && keys[t] == k;
                if t > from {
                    assert(m.dom().contains(k));
                }
            }
            if last_indices(keys, from).dom().contains(k) && k != keys[from] {
                assert(m.dom().contains(k));
            }
        }
    } else {
        assert forall|k: K|
            #[trigger] last_indices(keys, from).dom().contains(k) <==> exists|t: int|
                from <= t < keys.len() && keys[t] == k by {
        }
    }
}

/// The keys of `keys[..n]`.
pub open spec fn keys_before<K>(keys: Seq<K>, n: int) -> Set<K> {
    Set::new(|k: K| exists|t: int| 0 <= t < n && keys[t] == k)
}

/// How the scan stands after `n` new rows: the unmatched old keys are those
/// of the old rows not among the first `n` new keys, each with its last old
/// index; and an insert at a position is among the operations exactly when
/// the new row there came before `n` and its key was no longer unmatched.
proof fn lemma_scan_new<T: PartialEq, K>(
    old_items: Seq<T>,
    old_keys: Seq<K>,
    new_items: Seq<T>,
    new_keys: Seq<K>,
    n: nat,
)
    requires
        n <= new_keys.len(),
        old_keys.len() <= usize::MAX,
        new_keys.len() <= usize::MAX,
        old_items.len() == old_keys.len(),
    ensures
        scan_new(old_items, old_keys, new_items, new_keys, n).0 == last_indices(old_keys, 0).remove_keys(
            keys_before(new_keys, n as int),
        ),
        forall|x: usize|
            #[trigger] scan_new(old_items, old_keys, new_items, new_keys, n).1.contains(
                IndexedDataOp::Insert(LogIdx(x)),
            ) <==> (x < n && !scan_new(old_items, old_keys, new_items, new_keys, x as nat).0.dom().contains(
                new_keys[x as int],
            )),
    decreases n,
{
    let sc = scan_new(old_items, old_keys, new_items, new_keys, n);
    if n == 0 {
        assert(keys_before(new_keys, 0) =~= Set::empty());
        assert(last_indices(old_keys, 0).remove_keys(Set::empty()) =~= last_indices(old_keys, 0));
        assert forall|x: usize| !#[trigger] sc.1.contains(IndexedDataOp::Insert(LogIdx(x))) by {}
    } else {
        let p = (n - 1) as nat;
        lemma_scan_new(old_items, old_keys, new_items, new_keys, p);
        let prev = scan_new(old_items, old_keys, new_items, new_keys, p);
        let k = new_keys[p as int];
        assert(keys_before(new_keys, n as int) =~= keys_before(new_keys, p as int).insert(k)) by {
            assert forall|key: K| keys_before(new_keys, n as int).contains(key) implies keys_before(
                new_keys,
                p as int,
            ).insert(key).contains(key) by {}
            assert forall|key: K| #[trigger] keys_before(new_keys, p as int).insert(k).contains(key) implies keys_before(
                new_keys,
                n as int,
            ).contains(key) by {
                if key == k {
                    assert(new_keys[p as int] == key);
                } else {
                    let t = choose|t: int| 0 <= t < p && new_keys[t] == key;
                    assert(0 <= t < n && new_keys[t] == key);
                }
            }
        }
        if prev.0.dom().contains(k) {
            assert(sc.0 =~= prev.0.remove(k));
            assert(sc.0 =~= last_indices(old_keys, 0).remove_keys(keys_before(new_keys, n as int)));
        } else {
            assert(sc.0 == prev.0);
            assert(sc.0 =~= last_indices(old_keys, 0).remove_keys(keys_before(new_keys, n as int)));
        }
        assert forall|x: usize|
            #[trigger] sc.1.contains(IndexedDataOp::Insert(LogIdx(x))) <==> (x < n && !scan_new(
                old_items,
                old_keys,
                new_items,
                new_keys,
                x as nat,
            ).0.dom().contains(new_keys[x as int])) by {
            if prev.0.dom().contains(k) {
                let o = prev.0[k];
                let pp = reported_position(p as int, old_keys.len() as int);
                let moved = if o as int != p {
                    prev.1.push(IndexedDataOp::Move(LogIdx(o), LogIdx(pp as usize)))
                } else {
                    prev.1
                };
                if sc.1.contains(IndexedDataOp::Insert(LogIdx(x))) {
                    let i = choose|i: int| 0 <= i < sc.1.len() && sc.1[i] == IndexedDataOp::Insert(LogIdx(x));
                    assert(i < prev.1.len());
                    assert(prev.1[i] == sc.1[i]);
                    assert(prev.1.contains(IndexedDataOp::Insert(LogIdx(x))));
                }
                if x < p && !scan_new(old_items, old_keys, new_items, new_keys, x as nat).0.dom().contains(
                    new_keys[x as int],
                ) {
                    assert(prev.1.contains(IndexedDataOp::Insert(LogIdx(x))));
                    let i = choose|i: int| 0 <= i < prev.1.len() && prev.1[i] == IndexedDataOp::Insert(LogIdx(x));
                    assert(sc.1[i] == prev.1[i]);
                }
            } else {
                assert(sc.1 == prev.1.push(IndexedDataOp::Insert(LogIdx(p as usize))));
                if sc.1.contains(IndexedDataOp::Insert(LogIdx(x))) && x != p {
                    let i = choose|i: int| 0 <= i < sc.1.len() && sc.1[i] == IndexedDataOp::Insert(LogIdx(x));
                    assert(i < prev.1.len());
                    assert(prev.1[i] == sc.1[i]);
                    assert(prev.1.contains(IndexedDataOp::Insert(LogIdx(x))));
                }
                if x < p && !scan_new(old_items, old_keys, new_items, new_keys, x as nat).0.dom().contains(
                    new_keys[x as int],
                ) {
                    assert(prev.1.contains(IndexedDataOp::Insert(LogIdx(x))));
                    let i = choose|i: int| 0 <= i < prev.1.len() && prev.1[i] == IndexedDataOp::Insert(LogIdx(x));
                    assert(sc.1[i] == prev.1[i]);
                }
                if x == p {
                    assert(sc.1[sc.1.len() - 1] == IndexedDataOp::Insert(LogIdx(x)));
                }
            }
        }
    }
}

/// The scan makes no delete.
proof fn lemma_scan_no_delete<T: PartialEq, K>(
    old_items: Seq<T>,
    old_keys: Seq<K>,
    new_items: Seq<T>,
    new_keys: Seq<K>,
    n: nat,
)
    ensures
        forall|x: LogIdx| !#[trigger] scan_new(old_items, old_keys, new_items, new_keys, n).1.contains(IndexedDataOp::Delete(x)),
    decreases n,
{
    if n > 0 {
        lemma_scan_no_delete(old_items, old_keys, new_items, new_keys, (n - 1) as nat);
        let prev = scan_new(old_items, old_keys, new_items, new_keys, (n - 1) as nat);
        let sc = scan_new(old_items, old_keys, new_items, new_keys, n);
        assert forall|x: LogIdx| !#[trigger] sc.1.contains(IndexedDataOp::Delete(x)) by {
            if sc.1.contains(IndexedDataOp::Delete(x)) {
                let i = choose|i: int| 0 <= i < sc.1.len() && sc.1[i] == IndexedDataOp::Delete(x);
                if i < prev.1.len() {
                    assert(prev.1[i] == sc.1[i]);
                    assert(prev.1.contains(IndexedDataOp::Delete(x)));
                }
            }
        }
    }
}

/// The deletes among the first `n` old rows: exactly those rows that are
/// still unmatched, at the index kept for their key; nothing else.
proof fn lemma_unmatched_deletes<K>(remaining: Map<K, usize>, old_keys: Seq<K>, n: nat)
    requires
        n <= old_keys.len(),
        old_keys.len() <= usize::MAX,
    ensures
        forall|x: usize|
            #[trigger] unmatched_deletes(remaining, old_keys, n).contains(IndexedDataOp::Delete(LogIdx(x))) <==> (
            x < n && remaining.dom().contains(old_keys[x as int]) && remaining[old_keys[x as int]] == x),
        forall|op: IndexedDataOp|
            #[trigger] unmatched_deletes(remaining, old_keys, n).contains(op) ==> op is Delete,
    decreases n,
{
    if n > 0 {
        let p = (n - 1) as nat;
        lemma_unmatched_deletes(remaining, old_keys, p);
        let prev = unmatched_deletes(remaining, old_keys, p);
        let cur = unmatched_deletes(remaining, old_keys, n);
        assert forall|x: usize|
            #[trigger] cur.contains(IndexedDataOp::Delete(LogIdx(x))) <==> (x < n && remaining.dom().contains(
                old_keys[x as int],
            ) && remaining[old_keys[x as int]] == x) by {
            if cur.contains(IndexedDataOp::Delete(LogIdx(x))) && x != p {
                let i = choose|i: int| 0 <= i < cur.len() && cur[i] == IndexedDataOp::Delete(LogIdx(x));
                assert(i < prev.len());
                assert(prev[i] == cur[i]);
                assert(prev.contains(IndexedDataOp::Delete(LogIdx(x))));
            }
            if x < p && remaining.dom().contains(old_keys[x as int]) && remaining[old_keys[x as int]] == x {
                assert(prev.contains(IndexedDataOp::Delete(LogIdx(x))));
                let i = choose|i: int| 0 <= i < prev.len() && prev[i] == IndexedDataOp::Delete(LogIdx(x));
                assert(cur[i] == prev[i]);
            }
            if x == p && remaining.dom().contains(old_keys[x as int]) && remaining[old_keys[x as int]] == x {
                assert(cur[cur.len() - 1] == IndexedDataOp::Delete(LogIdx(x)));
            }
        }
        assert forall|op: IndexedDataOp| #[trigger] cur.contains(op) implies op is Delete by {
            let i = choose|i: int| 0 <= i < cur.len() && cur[i] == op;
            if i < prev.len() {
                assert(prev[i] == cur[i]);
                assert(prev.contains(op));
            }
        }
    }
}

/// What the operations of a diff mean: an insert at exactly each new row
/// whose key the old rows lack or an earlier new row has already taken; a
/// delete at exactly each old row that is the last with its key, where no
/// new row has that key. Every other operation is a move or an update of a
/// matched row.
pub proof fn law_diff_inserts_and_deletes<T: PartialEq, K>(
    old_items: Seq<T>,
    old_keys: Seq<K>,
    new_items: Seq<T>,
    new_keys: Seq<K>,
)
    requires
        old_items.len() == old_keys.len(),
        new_items.len() == new_keys.len(),
        old_keys.len() <= usize::MAX,
        new_keys.len() <= usize::MAX,
    ensures
        forall|x: usize|
            #[trigger] diff_spec(old_items, old_keys, new_items, new_keys).contains(IndexedDataOp::Insert(LogIdx(x)))
                <==> (x < new_keys.len() && (!old_keys.contains(new_keys[x as int]) || keys_before(
                new_keys,
                x as int,
            ).contains(new_keys[x as int]))),
        forall|x: usize|
            #[trigger] diff_spec(old_items, old_keys, new_items, new_keys).contains(IndexedDataOp::Delete(LogIdx(x)))
                <==> (x < old_keys.len() && (forall|u: int| x < u < old_keys.len() ==> old_keys[u] != old_keys[x as int])
                && !new_keys.contains(old_keys[x as int])),
{
    let n = new_keys.len();
    let sc = scan_new(old_items, old_keys, new_items, new_keys, n);
    let dels = unmatched_deletes(sc.0, old_keys, old_keys.len());
    let ops = diff_spec(old_items, old_keys, new_items, new_keys);
    assert(ops == sc.1 + dels);
    lemma_scan_new(old_items, old_keys, new_items, new_keys, n);
    lemma_scan_no_delete(old_items, old_keys, new_items, new_keys, n);
    lemma_unmatched_deletes(sc.0, old_keys, old_keys.len());
    lemma_last_indices(old_keys, 0);
    let last = last_indices(old_keys, 0);
    assert forall|x: usize|
        #[trigger] ops.contains(IndexedDataOp::Insert(LogIdx(x))) <==> (x < new_keys.len() && (!old_keys.contains(
            new_keys[x as int],
        ) || keys_before(new_keys, x as int).contains(new_keys[x as int]))) by {
        if ops.contains(IndexedDataOp::Insert(LogIdx(x))) {
            let i = choose|i: int| 0 <= i < ops.len() && ops[i] == IndexedDataOp::Insert(LogIdx(x));
            if i < sc.1.len() {
                assert(sc.1[i] == ops[i]);
                assert(sc.1.contains(IndexedDataOp::Insert(LogIdx(x))));
            } else {
                assert(dels[i - sc.1.len()] == ops[i]);
                assert(dels.contains(IndexedDataOp::Insert(LogIdx(x))));
            }
        }
        if x < new_keys.len() {
            lemma_scan_new(old_items, old_keys, new_items, new_keys, x as nat);
            let k = new_keys[x as int];
            if old_keys.contains(k) {
                let t = choose|t: int| 0 <= t < old_keys.len() && old_keys[t] == k;
                assert(last.dom().contains(k));
            }
            if last.dom().contains(k) {
                let t = choose|t: int| 0 <= t < old_keys.len() && old_keys[t] == k;
                assert(old_keys.contains(k));
            }
            if sc.1.contains(IndexedDataOp::Insert(LogIdx(x))) {
                let i = choose|i: int| 0 <= i < sc.1.len() && sc.1[i] == IndexedDataOp::Insert(LogIdx(x));
                assert(ops[i] == sc.1[i]);
            }
        }
    }
    assert forall|x: usize|
        #[trigger] ops.contains(IndexedDataOp::Delete(LogIdx(x))) <==> (x < old_keys.len() && (forall|u: int|
            x < u < old_keys.len() ==> old_keys[u] != old_keys[x as int]) && !new_keys.contains(old_keys[x as int])) by {
        let k = old_keys[x as int];
        if ops.contains(IndexedDataOp::Delete(LogIdx(x))) {
            let i = choose|i: int| 0 <= i < ops.len() && ops[i] == IndexedDataOp::Delete(LogIdx(x));
            if i < sc.1.len() {
                assert(sc.1[i] == ops[i]);
                assert(sc.1.contains(IndexedDataOp::Delete(LogIdx(x))));
            } else {
                assert(dels[i - sc.1.len()] == ops[i]);
                assert(dels.contains(IndexedDataOp::Delete(LogIdx(x))));
                assert(sc.0.dom().contains(k) && sc.0[k] == x);
                assert(!keys_before(new_keys, n as int).contains(k));
                if new_keys.contains(k) {
                    let t = choose|t: int| 0 <= t < new_keys.len() && new_keys[t] == k;
                    assert(keys_before(new_keys, n as int).contains(k));
                }
            }
        }
        if x < old_keys.len() && (forall|u: int| x < u < old_keys.len() ==> old_keys[u] != k) && !new_keys.contains(k) {
            assert(last.dom().contains(k));
            assert(last[k] == x);
            assert(!keys_before(new_keys, n as int).contains(k));
            assert(sc.0.dom().contains(k));
            assert(dels.contains(IndexedDataOp::Delete(LogIdx(x))));
            let i = choose|i: int| 0 <= i < dels.len() && dels[i] == IndexedDataOp::Delete(LogIdx(x));
            assert(ops[sc.1.len() + i] == dels[i]);
        }
    }
}

fn falses(n: usize) -> (r: Vec<bool>)
    ensures
        r@.len() == n,
        forall|i: int| 0 <= i < n ==> !#[trigger] r@[i],
{
    let mut r: Vec<bool> = Vec::new();
    let mut i: usize = 0;
    while i < n
        invariant
            i <= n,
            r@.len() == i,
            forall|k: int| 0 <= k < i ==> !#[trigger] r@[k],
        decreases n - i,
    {
        r.push(false);
        i = i + 1;
    }
    r
}

/// The operations of `s` stay among those of `s` with more pushed after it.
proof fn lemma_prefix_keeps<A>(s: Seq<A>, t: Seq<A>, x: A)
    requires
        s.len() <= t.len(),
        forall|i: int| 0 <= i < s.len() ==> t[i] == s[i],
        s.contains(x),
    ensures
        t.contains(x),
{
    let i = choose|i: int| 0 <= i < s.len() && s[i] == x;
    assert(t[i] == x);
}

/// After the first `n` new rows, each of them that takes an old row (its key
/// occurs among the old keys and not among the earlier new keys) has its
/// move from the last old row of that key, and its update when the rows
/// differ, both at its reported position.
proof fn lemma_scan_matches<T: PartialEq, K>(
    old_items: Seq<T>,
    old_keys: Seq<K>,
    new_items: Seq<T>,
    new_keys: Seq<K>,
    n: nat,
)
    requires
        n <= new_keys.len(),
        old_keys.len() <= usize::MAX,
        new_keys.len() <= usize::MAX,
        old_items.len() == old_keys.len(),
    ensures
        forall|j: int|
            #![trigger new_keys[j]]
            0 <= j < n && last_indices(old_keys, 0).dom().contains(new_keys[j]) && !keys_before(new_keys, j).contains(
                new_keys[j],
            ) ==> {
                let o = last_indices(old_keys, 0)[new_keys[j]] as int;
                let p = reported_position(j, old_keys.len() as int);
                let ops = scan_new(old_items, old_keys, new_items, new_keys, n).1;
                &&& (o != j ==> ops.contains(IndexedDataOp::Move(LogIdx(o as usize), LogIdx(p as usize))))
                &&& (!old_items[o].eq_spec(&new_items[j]) ==> ops.contains(IndexedDataOp::Update(LogIdx(p as usize))))
            },
    decreases n,
{
    if n > 0 {
        let m1 = (n - 1) as nat;
        lemma_scan_matches(old_items, old_keys, new_items, new_keys, m1);
        lemma_scan_new(old_items, old_keys, new_items, new_keys, m1);
        lemma_last_indices(old_keys, 0);
        let prev = scan_new(old_items, old_keys, new_items, new_keys, m1);
        let cur = scan_new(old_items, old_keys, new_items, new_keys, n);
        let last = last_indices(old_keys, 0);
        assert(prev.1.len() <= cur.1.len());
        assert forall|i: int| 0 <= i < prev.1.len() implies cur.1[i] == prev.1[i] by {}
        assert forall|j: int|
            #![trigger new_keys[j]]
            0 <= j < n && last.dom().contains(new_keys[j]) && !keys_before(new_keys, j).contains(new_keys[j]) implies {
                let o = last[new_keys[j]] as int;
                let p = reported_position(j, old_keys.len() as int);
                &&& (o != j ==> cur.1.contains(IndexedDataOp::Move(LogIdx(o as usize), LogIdx(p as usize))))
                &&& (!old_items[o].eq_spec(&new_items[j]) ==> cur.1.contains(IndexedDataOp::Update(LogIdx(p as usize))))
            } by {
            let o = last[new_keys[j]] as int;
            let p = reported_position(j, old_keys.len() as int);
            let mv = IndexedDataOp::Move(LogIdx(o as usize), LogIdx(p as usize));
            let up = IndexedDataOp::Update(LogIdx(p as usize));
            if j < m1 {
                if o != j {
                    lemma_prefix_keeps(prev.1, cur.1, mv);
                }
                if !old_items[o].eq_spec(&new_items[j]) {
                    lemma_prefix_keeps(prev.1, cur.1, up);
                }
            } else {
                let k = new_keys[j];
                assert(!keys_before(new_keys, m1 as int).contains(k));
                assert(prev.0.dom().contains(k));
                assert(prev.0[k] == last[k]);
                let moved = if o != j {
                    prev.1.push(mv)
                } else {
                    prev.1
                };
                let updated = if !old_items[o].eq_spec(&new_items[j]) {
                    moved.push(up)
                } else {
                    moved
                };
                assert(cur.1 == updated);
                if o != j {
                    assert(moved[moved.len() - 1] == mv);
                    assert(moved.contains(mv));
                    assert forall|i: int| 0 <= i < moved.len() implies updated[i] == moved[i] by {}
                    lemma_prefix_keeps(moved, updated, mv);
                }
                if !old_items[o].eq_spec(&new_items[j]) {
                    assert(updated[updated.len() - 1] == up);
                }
            }
        }
    }
}

/// A new row among the first `n` that takes an old row: its key occurs among
/// the old keys and not among the earlier new keys.
spec fn takes_old_row<K>(old_keys: Seq<K>, new_keys: Seq<K>, j: int) -> bool {
    last_indices(old_keys, 0).dom().contains(new_keys[j]) && !keys_before(new_keys, j).contains(new_keys[j])
}

/// Each move and each update after the first `n` new rows comes from one of
/// those rows that takes an old row: a move from that old row when it lies
/// elsewhere, an update when the rows differ, both at the row's reported
/// position.
proof fn lemma_scan_only_matches<T: PartialEq, K>(
    old_items: Seq<T>,
    old_keys: Seq<K>,
    new_items: Seq<T>,
    new_keys: Seq<K>,
    n: nat,
)
    requires
        n <= new_keys.len(),
        old_keys.len() <= usize::MAX,
        new_keys.len() <= usize::MAX,
        old_items.len() == old_keys.len(),
    ensures
        forall|x: usize|
            #[trigger] scan_new(old_items, old_keys, new_items, new_keys, n).1.contains(IndexedDataOp::Update(LogIdx(x)))
                ==> exists|j: int|
                0 <= j < n && #[trigger] takes_old_row(old_keys, new_keys, j) && !old_items[last_indices(
                    old_keys,
                    0,
                )[new_keys[j]] as int].eq_spec(&new_items[j]) && x == reported_position(j, old_keys.len() as int),
        forall|a: usize, b: usize|
            #[trigger] scan_new(old_items, old_keys, new_items, new_keys, n).1.contains(IndexedDataOp::Move(LogIdx(a), LogIdx(b)))
                ==> exists|j: int|
                0 <= j < n && #[trigger] takes_old_row(old_keys, new_keys, j) && a == last_indices(old_keys, 0)[new_keys[j]]
                    && a != j && b == reported_position(j, old_keys.len() as int),
    decreases n,
{
    if n > 0 {
        let m1 = (n - 1) as nat;
        lemma_scan_only_matches(old_items, old_keys, new_items, new_keys, m1);
        lemma_scan_new(old_items, old_keys, new_items, new_keys, m1);
        lemma_last_indices(old_keys, 0);
        let prev = scan_new(old_items, old_keys, new_items, new_keys, m1);
        let cur = scan_new(old_items, old_keys, new_items, new_keys, n);
        let last = last_indices(old_keys, 0);
        let j = m1 as int;
        let k = new_keys[j];
        assert forall|x: usize| #[trigger] cur.1.contains(IndexedDataOp::Update(LogIdx(x))) implies exists|jj: int|
            0 <= jj < n && #[trigger] takes_old_row(old_keys, new_keys, jj) && !old_items[last[new_keys[jj]] as int].eq_spec(
                &new_items[jj],
            ) && x == reported_position(jj, old_keys.len() as int) by {
            let i = choose|i: int| 0 <= i < cur.1.len() && cur.1[i] == IndexedDataOp::Update(LogIdx(x));
            if i < prev.1.len() {
                assert(prev.1[i] == cur.1[i]);
                assert(prev.1.contains(IndexedDataOp::Update(LogIdx(x))));
            } else {
                assert(prev.0.dom().contains(k));
                assert(takes_old_row(old_keys, new_keys, j));
            }
        }
        assert forall|a: usize, b: usize| #[trigger] cur.1.contains(IndexedDataOp::Move(LogIdx(a), LogIdx(b))) implies exists|jj: int|
            0 <= jj < n && #[trigger] takes_old_row(old_keys, new_keys, jj) && a == last[new_keys[jj]] && a != jj && b
                == reported_position(jj, old_keys.len() as int) by {
            let i = choose|i: int| 0 <= i < cur.1.len() && cur.1[i] == IndexedDataOp::Move(LogIdx(a), LogIdx(b));
            if i < prev.1.len() {
                assert(prev.1[i] == cur.1[i]);
                assert(prev.1.contains(IndexedDataOp::Move(LogIdx(a), LogIdx(b))));
            } else {
                assert(prev.0.dom().contains(k));
                assert(takes_old_row(old_keys, new_keys, j));
            }
        }
    }
}

/// Every move and every update of a diff belongs to a new row that takes an
/// old row (the first new row with a key, taking the last old row with it):
/// a move goes from that old row, lying elsewhere, to the new row's reported
/// position; an update is at that reported position, where the two rows
/// differ. No other moves or updates are reported.
pub proof fn law_diff_moves_and_updates_only_for_matches<T: PartialEq, K>(
    old_items: Seq<T>,
    old_keys: Seq<K>,
    new_items: Seq<T>,
    new_keys: Seq<K>,
)
    requires
        old_items.len() == old_keys.len(),
        new_items.len() == new_keys.len(),
        old_keys.len() <= usize::MAX,
        new_keys.len() <= usize::MAX,
    ensures
        forall|x: usize|
            #[trigger] diff_spec(old_items, old_keys, new_items, new_keys).contains(IndexedDataOp::Update(LogIdx(x)))
                ==> exists|j: int, o: int|
                #![trigger new_keys[j], old_keys[o]]
                0 <= j < new_keys.len() && 0 <= o < old_keys.len() && old_keys[o] == new_keys[j] && (forall|u: int|
                    o < u < old_keys.len() ==> old_keys[u] != old_keys[o]) && (forall|t: int|
                    0 <= t < j ==> new_keys[t] != new_keys[j]) && !old_items[o].eq_spec(&new_items[j]) && x == (if j
                    < old_keys.len() {
                    j
                } else {
                    old_keys.len() - 1
                }),
        forall|a: usize, b: usize|
            #[trigger] diff_spec(old_items, old_keys, new_items, new_keys).contains(IndexedDataOp::Move(LogIdx(a), LogIdx(b)))
                ==> exists|j: int|
                #![trigger new_keys[j]]
                0 <= j < new_keys.len() && a < old_keys.len() && old_keys[a as int] == new_keys[j] && (forall|u: int|
                    a < u < old_keys.len() ==> old_keys[u] != old_keys[a as int]) && (forall|t: int|
                    0 <= t < j ==> new_keys[t] != new_keys[j]) && a != j && b == (if j < old_keys.len() {
                    j
                } else {
                    old_keys.len() - 1
                }),
{
    let n = new_keys.len();
    let sc = scan_new(old_items, old_keys, new_items, new_keys, n);
    let dels = unmatched_deletes(sc.0, old_keys, old_keys.len());
    let ops = diff_spec(old_items, old_keys, new_items, new_keys);
    assert(ops == sc.1 + dels);
    lemma_scan_only_matches(old_items, old_keys, new_items, new_keys, n);
    lemma_unmatched_deletes(sc.0, old_keys, old_keys.len());
    lemma_last_indices(old_keys, 0);
    let last = last_indices(old_keys, 0);
    assert forall|x: usize| #[trigger] ops.contains(IndexedDataOp::Update(LogIdx(x))) implies exists|j: int, o: int|
        #![trigger new_keys[j], old_keys[o]]
        0 <= j < new_keys.len() && 0 <= o < old_keys.len() && old_keys[o] == new_keys[j] && (forall|u: int|
            o < u < old_keys.len() ==> old_keys[u] != old_keys[o]) && (forall|t: int|
            0 <= t < j ==> new_keys[t] != new_keys[j]) && !old_items[o].eq_spec(&new_items[j]) && x == (if j
            < old_keys.len() {
            j
        } else {
            old_keys.len() - 1
        }) by {
        let op = IndexedDataOp::Update(LogIdx(x));
        let i = choose|i: int| 0 <= i < ops.len() && ops[i] == op;
        if i >= sc.1.len() {
            assert(dels[i - sc.1.len()] == op);
            assert(dels.contains(op));
        }
        assert(sc.1[i] == op);
        assert(sc.1.contains(op));
        let j = choose|j: int|
            0 <= j < n && #[trigger] takes_old_row(old_keys, new_keys, j) && !old_items[last[new_keys[j]] as int].eq_spec(
                &new_items[j],
            ) && x == reported_position(j, old_keys.len() as int);
        let o = last[new_keys[j]] as int;
        assert(old_keys[o] == new_keys[j]);
        assert forall|t: int| 0 <= t < j implies new_keys[t] != new_keys[j] by {
            if new_keys[t] == new_keys[j] {
                assert(keys_before(new_keys, j).contains(new_keys[j]));
            }
        }
    }
    assert forall|a: usize, b: usize| #[trigger] ops.contains(IndexedDataOp::Move(LogIdx(a), LogIdx(b))) implies exists|j: int|
        #![trigger new_keys[j]]
        0 <= j < new_keys.len() && a < old_keys.len() && old_keys[a as int] == new_keys[j] && (forall|u: int|
            a < u < old_keys.len() ==> old_keys[u] != old_keys[a as int]) && (forall|t: int|
            0 <= t < j ==> new_keys[t] != new_keys[j]) && a != j && b == (if j < old_keys.len() {
            j
        } else {
            old_keys.len() - 1
        }) by {
        let op = IndexedDataOp::Move(LogIdx(a), LogIdx(b));
        let i = choose|i: int| 0 <= i < ops.len() && ops[i] == op;
        if i >= sc.1.len() {
            assert(dels[i - sc.1.len()] == op);
            assert(dels.contains(op));
        }
        assert(sc.1[i] == op);
        assert(sc.1.contains(op));
        let j = choose|j: int|
            0 <= j < n && #[trigger] takes_old_row(old_keys, new_keys, j) && a == last[new_keys[j]] && a != j && b
                == reported_position(j, old_keys.len() as int);
        assert(old_keys[a as int] == new_keys[j]);
        assert forall|t: int| 0 <= t < j implies new_keys[t] != new_keys[j] by {
            if new_keys[t] == new_keys[j] {
                assert(keys_before(new_keys, j).contains(new_keys[j]));
            }
        }
    }
}

/// A new row that takes an old row is reported at its new position, capped
/// at the last old position: when it lies elsewhere than the old row it
/// takes, the diff has a move from that old row to this position, and when
/// the two rows differ, an update at this same position (never at the old
/// row's position). The old row a new row takes is the last old row with its
/// key, for the first new row with that key.
pub proof fn law_diff_moves_and_updates_at_new_position<T: PartialEq, K>(
    old_items: Seq<T>,
    old_keys: Seq<K>,
    new_items: Seq<T>,
    new_keys: Seq<K>,
)
    requires
        old_items.len() == old_keys.len(),
        new_items.len() == new_keys.len(),
        old_keys.len() <= usize::MAX,
        new_keys.len() <= usize::MAX,
    ensures
        forall|j: int, o: int|
            #![trigger new_keys[j], old_keys[o]]
            0 <= j < new_keys.len() && 0 <= o < old_keys.len() && old_keys[o] == new_keys[j] && (forall|u: int|
                o < u < old_keys.len() ==> old_keys[u] != old_keys[o]) && (forall|t: int|
                0 <= t < j ==> new_keys[t] != new_keys[j]) ==> {
                let p = if j < old_keys.len() { j } else { old_keys.len() - 1 };
                let ops = diff_spec(old_items, old_keys, new_items, new_keys);
                &&& (o != j ==> ops.contains(IndexedDataOp::Move(LogIdx(o as usize), LogIdx(p as usize))))
                &&& (!old_items[o].eq_spec(&new_items[j]) ==> ops.contains(IndexedDataOp::Update(LogIdx(p as usize))))
            },
{
    let n = new_keys.len();
    let sc = scan_new(old_items, old_keys, new_items, new_keys, n);
    let dels = unmatched_deletes(sc.0, old_keys, old_keys.len());
    let ops = diff_spec(old_items, old_keys, new_items, new_keys);
    assert(ops == sc.1 + dels);
    lemma_scan_matches(old_items, old_keys, new_items, new_keys, n);
    lemma_last_indices(old_keys, 0);
    let last = last_indices(old_keys, 0);
    assert forall|i: int| 0 <= i < sc.1.len() implies ops[i] == sc.1[i] by {}
    assert forall|j: int, o: int|
        #![trigger new_keys[j], old_keys[o]]
        0 <= j < new_keys.len() && 0 <= o < old_keys.len() && old_keys[o] == new_keys[j] && (forall|u: int|
            o < u < old_keys.len() ==> old_keys[u] != old_keys[o]) && (forall|t: int|
            0 <= t < j ==> new_keys[t] != new_keys[j]) implies {
            let p = if j < old_keys.len() { j } else { old_keys.len() - 1 };
            &&& (o != j ==> ops.contains(IndexedDataOp::Move(LogIdx(o as usize), LogIdx(p as usize))))
            &&& (!old_items[o].eq_spec(&new_items[j]) ==> ops.contains(IndexedDataOp::Update(LogIdx(p as usize))))
        } by {
        let k = new_keys[j];
        assert(last.dom().contains(k));
        let t = last[k] as int;
        assert(old_keys[t] == k);
        if t < o {
            assert(old_keys[o] == k);
        } else if o < t {
            assert(old_keys[t] == old_keys[o]);
        }
        assert(t == o);
        assert(!keys_before(new_keys, j).contains(k));
        assert(new_keys[j] == k);
        let p = reported_position(j, old_keys.len() as int);
        if o != j {
            lemma_prefix_keeps(sc.1, ops, IndexedDataOp::Move(LogIdx(o as usize), LogIdx(p as usize)));
        }
        if !old_items[o].eq_spec(&new_items[j]) {
            lemma_prefix_keeps(sc.1, ops, IndexedDataOp::Update(LogIdx(p as usize)));
        }
    }
}

/// The operations that turn the old rows into the new rows, each row known
/// by its key (`old_keys[i]` is the key of `old_items[i]`).
pub fn diff_ops<T: PartialEq, K: Hash + Eq>(
    old_items: &Vec<T>,
    old_keys: Vec<K>,
    new_items: &Vec<T>,
    new_keys: &Vec<K>,
) -> (r: Vec<IndexedDataOp>)
    requires
        old_items@.len() == old_keys@.len(),
        new_items@.len() == new_keys@.len(),
        obeys_key_model::<K>(),
        <T as PartialEqSpec>::obeys_eq_spec(),
    ensures
        r@ == diff_spec(old_items@, old_keys@, new_items@, new_keys@),
{
    let n = old_keys.len();
    let ghost okeys = old_keys@;
    let mut keys = old_keys;
    let mut index: HashMap<K, usize> = HashMap::new();
    let mut is_last = falses(n);
    let mut i: usize = n;
    while i > 0
        invariant
            n == okeys.len(),
            i <= n,
            keys@ == okeys.take(i as int),
            index@ == last_indices(okeys, i as int),
            obeys_key_model::<K>(),
            is_last@.len() == n,
            forall|t: int| i <= t < n ==> index@.dom().contains(#[trigger] okeys[t]),
            forall|k: K| #[trigger] index@.dom().contains(k) ==> i <= index@[k] < n && okeys[index@[k] as int] == k,
            forall|t: int| 0 <= t < n ==> (#[trigger] is_last@[t] <==> (i <= t && index@[okeys[t]] == t)),
        decreases i,
    {
        let k = keys.pop().unwrap();
        i = i - 1;
        assert(k == okeys[i as int]);
        assert(keys@ =~= okeys.take(i as int));
        if !index.contains_key(&k) {
            index.insert(k, i);
            is_last.set(i, true);
        }
    }
    let mut matched = falses(n);
    let mut ops: Vec<IndexedDataOp> = Vec::new();
    let m_len = new_keys.len();
    let mut j: usize = 0;
    while j < m_len
        invariant
            n == okeys.len(),
            n == old_items@.len(),
            m_len == new_keys@.len(),
            m_len == new_items@.len(),
            j <= m_len,
            obeys_key_model::<K>(),
            <T as PartialEqSpec>::obeys_eq_spec(),
            is_last@.len() == n,
            matched@.len() == n,
            index@ == scan_new(old_items@, okeys, new_items@, new_keys@, j as nat).0,
            ops@ == scan_new(old_items@, okeys, new_items@, new_keys@, j as nat).1,
            forall|k: K| #[trigger] index@.dom().contains(k) ==> index@[k] < n && okeys[index@[k] as int] == k,
            forall|t: int| 0 <= t < n ==> ((#[trigger] is_last@[t] && !matched@[t]) <==> (
                index@.dom().contains(okeys[t]) && index@[okeys[t]] == t)),
        decreases m_len - j,
    {
        let ghost before = index@;
        match index.remove(&new_keys[j]) {
            Some(o) => {
                let p = if j < n {
                    j
                } else {
                    n - 1
                };
                if o != j {
                    ops.push(IndexedDataOp::Move(LogIdx(o), LogIdx(p)));
                }
                if !(old_items[o] == new_items[j]) {
                    ops.push(IndexedDataOp::Update(LogIdx(p)));
                }
                let ghost old_matched = matched@;
                matched.set(o, true);
                proof {
                    let key = new_keys@[j as int];
                    assert(before.dom().contains(key) && before[key] == o);
                    assert(index@ == before.remove(key));
                    assert(okeys[o as int] == key);
                    assert forall|t: int| 0 <= t < n implies ((#[trigger] is_last@[t] && !matched@[t]) <==> (
                        index@.dom().contains(okeys[t]) && index@[okeys[t]] == t)) by {
                        if okeys[t] != key {
                            assert(t != o);
                            assert(matched@[t] == old_matched[t]);
                            if before.dom().contains(okeys[t]) {
                                assert(index@[okeys[t]] == before[okeys[t]]);
                            }
                        } else {
                            assert(!index@.dom().contains(okeys[t]));
                            if t != o {
                                assert(matched@[t] == old_matched[t]);
                            }
                        }
                    }
                }
            },
            None => {
                proof {
                    let key = new_keys@[j as int];
                    assert(!before.dom().contains(key));
                    assert(index@ =~= before);
                }
                ops.push(IndexedDataOp::Insert(LogIdx(j)));
            },
        }
        j = j + 1;
    }
    let ghost scanned = scan_new(old_items@, okeys, new_items@, new_keys@, m_len as nat);
    let mut t: usize = 0;
    while t < n
        invariant
            n == okeys.len(),
            t <= n,
            is_last@.len() == n,
            matched@.len() == n,
            index@ == scanned.0,
            ops@ == scanned.1 + unmatched_deletes(scanned.0, okeys, t as nat),
            forall|s: int| 0 <= s < n ==> ((#[trigger] is_last@[s] && !matched@[s]) <==> (
                index@.dom().contains(okeys[s]) && index@[okeys[s]] == s)),
        decreases n - t,
    {
        if is_last[t] && !matched[t] {
            ops.push(IndexedDataOp::Delete(LogIdx(t)));
        }
        proof {
            let next = unmatched_deletes(scanned.0, okeys, (t + 1) as nat);
            let prev = unmatched_deletes(scanned.0, okeys, t as nat);
            if is_last@[t as int] && !matched@[t as int] {
                assert(next == prev.push(IndexedDataOp::Delete(LogIdx(t))));
                assert(scanned.1 + next =~= (scanned.1 + prev).push(IndexedDataOp::Delete(LogIdx(t))));
            } else {
                assert(next == prev);
            }
        }
        t = t + 1;
    }
    ops
}


#[verifier::external_type_specification]
#[verifier::external_body]
pub struct ExInstant(std::time::Instant);

/// `std::time::Instant::now`: the current time, of which nothing is promised.
#[verifier::external_body]
fn instant_now() -> std::time::Instant {
    std::time::Instant::now()
}

/// `Instant::clone`: `Instant` is `Copy`, so the clone is the same instant.
pub assume_specification[<std::time::Instant as Clone>::clone](i: &std::time::Instant) -> (r: std::time::Instant)
    ensures
        r == *i,
;

/// The changes between two versions of indexed data, stamped with the time
/// they were found; no list of operations means a full refresh. Two diffs
/// are equal when they hold the same operations, whenever they were found.
#[derive(Debug, Clone)]
pub struct IndexedDataDiff {
    instant: std::time::Instant,
    ops: Option<Vec<IndexedDataOp>>,
}

impl IndexedDataDiff {
    /// The operations, or `None` for a full refresh.
    pub closed spec fn ops_spec(self) -> Option<Seq<IndexedDataOp>> {
        match self.ops {
            Some(v) => Some(v@),
            None => None,
        }
    }

    pub fn new(ops: Vec<IndexedDataOp>) -> (r: Self)
        ensures
            r.ops_spec() == Some(ops@),
    {
        IndexedDataDiff { instant: instant_now(), ops: Some(ops) }
    }

    pub fn refresh() -> (r: Self)
        ensures
            r.ops_spec().is_none(),
    {
        IndexedDataDiff { instant: instant_now(), ops: None }
    }

    pub fn is_refresh(&self) -> (r: bool)
        ensures
            r == self.ops_spec().is_none(),
    {
        self.ops.is_none()
    }

    /// The operations in order; none for a full refresh.
    pub fn ops(&self) -> (r: Vec<IndexedDataOp>)
        ensures
            r@ == (match self.ops_spec() {
                Some(s) => s,
                None => Seq::empty(),
            }),
    {
        let mut r: Vec<IndexedDataOp> = Vec::new();
        match &self.ops {
            Some(ops) => {
                let n = ops.len();
                let mut i: usize = 0;
                while i < n
                    invariant
                        n == ops@.len(),
                        i <= n,
                        r@ == ops@.take(i as int),
                    decreases n - i,
                {
                    r.push(ops[i]);
                    assert(ops@.take(i + 1) =~= ops@.take(i as int).push(ops@[i as int]));
                    i = i + 1;
                }
                assert(ops@.take(n as int) =~= ops@);
            },
            None => {},
        }
        r
    }
}

/// The two lists hold the same operations in the same order.
fn same_ops(a: &Vec<IndexedDataOp>, b: &Vec<IndexedDataOp>) -> (r: bool)
    ensures
        r == (a@ == b@),
{
    if a.len() != b.len() {
        return false;
    }
    let n = a.len();
    let mut i: usize = 0;
    while i < n
        invariant
            n == a@.len(),
            n == b@.len(),
            i <= n,
            forall|k: int| 0 <= k < i ==> a@[k] == b@[k],
        decreases n - i,
    {
        if a[i] != b[i] {
            return false;
        }
        i = i + 1;
    }
    assert(a@ =~= b@);
    true
}

impl PartialEq for IndexedDataDiff {
    fn eq(&self, other: &Self) -> (r: bool) {
        match (&self.ops, &other.ops) {
            (Some(a), Some(b)) => same_ops(a, b),
            (None, None) => true,
            _ => false,
        }
    }
}

impl vstd::std_specs::cmp::PartialEqSpecImpl for IndexedDataDiff {
    open spec fn obeys_eq_spec() -> bool {
        true
    }

    open spec fn eq_spec(&self, other: &Self) -> bool {
        self.ops_spec() == other.ops_spec()
    }
}

/// Rows of data, each at a data position.
pub trait IndexedData {
    type Item: Clone;

    /// Applies `f` to the row at `idx`; `None` where there is no such row.
    fn with<V, F: FnOnce(&Self::Item) -> V>(&self, idx: LogIdx, f: F) -> Option<V>
        requires
            forall|item: &Self::Item| f.requires((item,)),
    ;

    /// Applies `f` to the row at `idx`, keeping what it changes; `None` where
    /// there is no such row.
    fn with_mut<V, F: FnOnce(&mut Self::Item) -> V>(&mut self, idx: LogIdx, f: F) -> Option<V>
        requires
            forall|item: &mut Self::Item| f.requires((item,)),
    ;

    /// The number of rows, where the data states it.
    spec fn known_len(&self) -> Option<nat>;

    /// The number of rows.
    fn data_len(&self) -> (r: usize)
        ensures
            self.known_len() matches Some(n) ==> r == n,
    ;

    /// No rows at all.
    fn is_empty(&self) -> (r: bool)
        ensures
            self.known_len() matches Some(n) ==> (r <==> n == 0),
    {
        self.data_len() == 0
    }
}


/// `im::Vector::len`: the number of items. The item names of this crate are
/// per item type, so for a vector of any items nothing is stated here.
#[verifier::external_body]
fn any_vector_len<A: Clone>(v: &im::Vector<A>) -> usize {
    v.len()
}

/// `im::Vector::get`: the item at `index`, `None` past the end. The item
/// names of this crate are per item type, so for a vector of any items
/// nothing is stated here.
#[verifier::external_body]
fn any_vector_get<A: Clone>(v: &im::Vector<A>, index: usize) -> Option<&A> {
    v.get(index)
}

/// `im::Vector::get`, then `f` on the row found (through `Option::map`).
/// The impl of `IndexedData` for vectors of any rows cannot rely on the
/// trait's `requires` on `f`, so the call of `f` is made here;
/// `IndexedData::with` requires of its callers that `f` accepts every row.
/// Where `f` accepts every row, a value returned is what `f` gave for some
/// row; which row, and when there is one, is not stated (the item names of
/// this crate are per item type).
#[verifier::external_body]
fn vector_with<A: Clone, V, F: FnOnce(&A) -> V>(v: &im::Vector<A>, index: usize, f: F) -> (r: Option<V>)
    ensures
        (forall|item: &A| #[trigger] f.requires((item,))) ==> (r matches Some(x) ==> exists|item: &A|
            #[trigger] f.ensures((item,), x)),
{
    v.get(index).map(f)
}

/// `im::Vector::get_mut`, then `f` on the row found (through `Option::map`),
/// for the same reason as `vector_with`. Where `f` accepts every row, a
/// value returned is what `f` gave for some row; which row, when there is
/// one, and how the vector changes are not stated.
#[verifier::external_body]
fn vector_with_mut<A: Clone, V, F: FnOnce(&mut A) -> V>(v: &mut im::Vector<A>, index: usize, f: F) -> (r: Option<V>)
    ensures
        (forall|item: &mut A| #[trigger] f.requires((item,))) ==> (r matches Some(x) ==> exists|item: &mut A|
            #[trigger] f.ensures((item,), x)),
{
    v.get_mut(index).map(f)
}

impl<RowData: Clone> IndexedData for im::Vector<RowData> {
    type Item = RowData;

    /// The length of a vector of any rows is not stated.
    open spec fn known_len(&self) -> Option<nat> {
        None
    }

    fn with<V, F: FnOnce(&Self::Item) -> V>(&self, idx: LogIdx, f: F) -> (r: Option<V>)
        ensures
            (forall|item: &RowData| #[trigger] f.requires((item,))) ==> (r matches Some(x) ==> exists|item: &RowData|
                #[trigger] f.ensures((item,), x)),
    {
        vector_with(self, idx.0, f)
    }

    fn with_mut<V, F: FnOnce(&mut Self::Item) -> V>(&mut self, idx: LogIdx, f: F) -> (r: Option<V>)
        ensures
            (forall|item: &mut RowData| #[trigger] f.requires((item,))) ==> (r matches Some(x) ==> exists|
                item: &mut RowData,
            | #[trigger] f.ensures((item,), x)),
    {
        vector_with_mut(self, idx.0, f)
    }

    fn data_len(&self) -> usize {
        any_vector_len(self)
    }
}

/// Finds the changes between two versions of some indexed data.
pub trait IndexedDataDiffer<T: IndexedData> {
    /// What `diff` needs of the differ and of the data it compares.
    spec fn diff_requires(&self, old: &T, new: &T) -> bool;

    /// The changes from `old` to `new`; `None` when there are none.
    fn diff(&self, old: &T, new: &T) -> Option<IndexedDataDiff>
        requires
            self.diff_requires(old, new),
    ;
}

/// A differ that reports any change as a full refresh.
pub struct RefreshDiffer;

impl<T: IndexedData + PartialEq> IndexedDataDiffer<T> for RefreshDiffer {
    open spec fn diff_requires(&self, old: &T, new: &T) -> bool {
        true
    }

    fn diff(&self, old: &T, new: &T) -> (r: Option<IndexedDataDiff>)
        ensures
            <T as PartialEqSpec>::obeys_eq_spec() ==> (r.is_none() <==> old.eq_spec(new)),
            r matches Some(d) ==> d.ops_spec().is_none(),
    {
        if *old == *new {
            None
        } else {
            Some(IndexedDataDiff::refresh())
        }
    }
}

/// The items are pairwise equal.
pub open spec fn same_items<T: PartialEq>(a: Seq<T>, b: Seq<T>) -> bool {
    &&& a.len() == b.len()
    &&& forall|i: int| 0 <= i < a.len() ==> #[trigger] a[i].eq_spec(&b[i])
}

fn items_equal<T: PartialEq>(a: &Vec<T>, b: &Vec<T>) -> (r: bool)
    requires
        <T as PartialEqSpec>::obeys_eq_spec(),
    ensures
        r == same_items(a@, b@),
{
    if a.len() != b.len() {
        return false;
    }
    let n = a.len();
    let mut i: usize = 0;
    while i < n
        invariant
            n == a@.len(),
            n == b@.len(),
            i <= n,
            <T as PartialEqSpec>::obeys_eq_spec(),
            forall|k: int| 0 <= k < i ==> #[trigger] a@[k].eq_spec(&b@[k]),
        decreases n - i,
    {
        if !(a[i] == b[i]) {
            return false;
        }
        i = i + 1;
    }
    true
}

/// Copies the rows of a vector, front to back.
fn rows_of<T: Clone>(v: &im::Vector<T>) -> Vec<T> {
    let n = any_vector_len(v);
    let mut r: Vec<T> = Vec::new();
    let mut i: usize = 0;
    while i < n
        invariant
            i <= n,
        decreases n - i,
    {
        match any_vector_get(v, i) {
            Some(row) => r.push(row.clone()),
            None => {},
        }
        i = i + 1;
    }
    r
}

/// A differ for vectors that matches rows by a key taken from each row.
pub struct SlowVectorDiffer<F> {
    key_extract: F,
}

impl<F> SlowVectorDiffer<F> {
    pub fn new<T, K>(key_extract: F) -> (r: Self) where F: Fn(&T) -> K, K: Hash + Eq + Clone
        ensures
            r.extractor() == key_extract,
    {
        SlowVectorDiffer { key_extract }
    }

    /// The key extractor.
    pub closed spec fn extractor(self) -> F {
        self.key_extract
    }

    /// The key of each row, in order.
    fn keys_of<T, K>(&self, rows: &Vec<T>) -> (r: Vec<K>) where F: Fn(&T) -> K
        requires
            forall|x: &T| #[trigger] self.extractor().requires((x,)),
        ensures
            r@.len() == rows@.len(),
            forall|i: int| 0 <= i < rows@.len() ==> #[trigger] self.extractor().ensures((&rows@[i],), r@[i]),
    {
        let n = rows.len();
        let mut r: Vec<K> = Vec::new();
        let mut i: usize = 0;
        while i < n
            invariant
                n == rows@.len(),
                i <= n,
                r@.len() == i,
                forall|x: &T| #[trigger] self.extractor().requires((x,)),
                forall|k: int| 0 <= k < i ==> #[trigger] self.extractor().ensures((&rows@[k],), r@[k]),
            decreases n - i,
        {
            assert(self.extractor().requires((&rows@[i as int],)));
            let key = (self.key_extract)(&rows[i]);
            r.push(key);
            i = i + 1;
        }
        r
    }
}

impl<T: Clone + PartialEq, F: Fn(&T) -> K, K: Hash + Eq + Clone> IndexedDataDiffer<im::Vector<T>> for SlowVectorDiffer<F> {
    open spec fn diff_requires(&self, old: &im::Vector<T>, new: &im::Vector<T>) -> bool {
        &&& forall|x: &T| #[trigger] self.extractor().requires((x,))
        &&& obeys_key_model::<K>()
        &&& <T as PartialEqSpec>::obeys_eq_spec()
    }

    /// Copies the rows of both vectors; when they differ, matches them by key
    /// with `diff_ops`, so that the operations are `diff_spec` of the rows and
    /// their keys.
    fn diff(&self, old: &im::Vector<T>, new: &im::Vector<T>) -> (r: Option<IndexedDataDiff>)
        ensures
            r matches Some(d) ==> exists|old_rows: Seq<T>, old_keys: Seq<K>, new_rows: Seq<T>, new_keys: Seq<K>| {
                &&& !same_items(old_rows, new_rows)
                &&& old_keys.len() == old_rows.len()
                &&& new_keys.len() == new_rows.len()
                &&& (forall|i: int| 0 <= i < old_rows.len() ==> #[trigger] self.extractor().ensures((&old_rows[i],), old_keys[i]))
                &&& (forall|i: int| 0 <= i < new_rows.len() ==> #[trigger] self.extractor().ensures((&new_rows[i],), new_keys[i]))
                &&& d.ops_spec() == Some(diff_spec(old_rows, old_keys, new_rows, new_keys))
            },
    {
        let old_rows = rows_of(old);
        let new_rows = rows_of(new);
        if items_equal(&old_rows, &new_rows) {
            None
        } else {
            let old_keys = self.keys_of(&old_rows);
            let new_keys = self.keys_of(&new_rows);
            let ghost ok = old_keys@;
            let ops = diff_ops(&old_rows, old_keys, &new_rows, &new_keys);
            let d = IndexedDataDiff::new(ops);
            assert(d.ops_spec() == Some(diff_spec(old_rows@, ok, new_rows@, new_keys@)));
            Some(d)
        }
    }
}

} // verus!
