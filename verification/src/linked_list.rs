//! Per-account doubly linked lists kept in one flat map, as the kitty pallet
//! stores which kitties each account owns.
//!
//! An entry `(account, Some(v))` is the node of value `v` in that account's
//! list; the entry `(account, None)` is the list's head, whose `next` is the
//! first value and whose `prev` is the last one. A missing entry reads as a
//! node with neither neighbour, so an account without entries owns the empty
//! list.
use std::collections::BTreeMap;
use vstd::prelude::*;

verus! {

broadcast use {vstd::std_specs::btree::group_btree_axioms, vstd::laws_cmp::group_laws_cmp};

/// The neighbours of one node (or of the head) of a list.
#[derive(Clone, Copy, Debug, PartialEq, Eq, Structural)]
pub struct LinkedItem {
    pub prev: Option<u32>,
    pub next: Option<u32>,
}

/// What a missing entry reads as.
pub open spec fn empty_item() -> LinkedItem {
    LinkedItem { prev: None, next: None }
}

/// The entries of one account, keyed by the value (`None` for the head).
pub open spec fn slice(m: Map<(u64, Option<u32>), LinkedItem>, acc: u64) -> Map<
    Option<u32>,
    LinkedItem,
> {
    Map::new(|k: Option<u32>| m.contains_key((acc, k)), |k: Option<u32>| m[(acc, k)])
}

/// Reading an entry, with a missing entry read as `empty_item()`.
pub open spec fn read_node(nodes: Map<Option<u32>, LinkedItem>, k: Option<u32>) -> LinkedItem {
    if nodes.contains_key(k) {
        nodes[k]
    } else {
        empty_item()
    }
}

/// The value before position `i` of `s`, if any.
pub open spec fn prev_of(s: Seq<u32>, i: int) -> Option<u32> {
    if i <= 0 {
        None
    } else {
        Some(s[i - 1])
    }
}

/// The value after position `i` of `s`, if any.
pub open spec fn next_of(s: Seq<u32>, i: int) -> Option<u32> {
    if i + 1 >= s.len() {
        None
    } else {
        Some(s[i + 1])
    }
}

/// The head entry of the list `s`: its last value before it, its first after it.
pub open spec fn head_of(s: Seq<u32>) -> LinkedItem {
    if s.len() == 0 {
        empty_item()
    } else {
        LinkedItem { prev: Some(s.last()), next: Some(s[0]) }
    }
}

/// `nodes` holds exactly the list `s`: a head entry, and for each value of `s`
/// a node naming its neighbours, and no node for any other value.
pub open spec fn encodes(nodes: Map<Option<u32>, LinkedItem>, s: Seq<u32>) -> bool {
    &&& s.no_duplicates()
    &&& read_node(nodes, None) == head_of(s)
    &&& forall|i: int|
        #![trigger s[i]]
        0 <= i < s.len() ==> nodes.contains_key(Some(s[i])) && nodes[Some(s[i])] == (LinkedItem {
            prev: prev_of(s, i),
            next: next_of(s, i),
        })
    &&& forall|v: u32| #[trigger] nodes.contains_key(Some(v)) ==> s.contains(v)
}

proof fn lemma_slice_insert(
    m: Map<(u64, Option<u32>), LinkedItem>,
    acc: u64,
    k: Option<u32>,
    x: LinkedItem,
)
    ensures
        slice(m.insert((acc, k), x), acc) == slice(m, acc).insert(k, x),
        forall|other: u64|
            other != acc ==> #[trigger] slice(m.insert((acc, k), x), other) == slice(m, other),
{
    assert(slice(m.insert((acc, k), x), acc) =~= slice(m, acc).insert(k, x));
    assert forall|other: u64| other != acc implies #[trigger] slice(m.insert((acc, k), x), other)
        == slice(m, other) by {
        assert(slice(m.insert((acc, k), x), other) =~= slice(m, other));
    }
}

proof fn lemma_slice_remove(m: Map<(u64, Option<u32>), LinkedItem>, acc: u64, k: Option<u32>)
    ensures
        slice(m.remove((acc, k)), acc) == slice(m, acc).remove(k),
        forall|other: u64|
            other != acc ==> #[trigger] slice(m.remove((acc, k)), other) == slice(m, other),
{
    assert(slice(m.remove((acc, k)), acc) =~= slice(m, acc).remove(k));
    assert forall|other: u64| other != acc implies #[trigger] slice(m.remove((acc, k)), other)
        == slice(m, other) by {
        assert(slice(m.remove((acc, k)), other) =~= slice(m, other));
    }
}

/// The three writes of an append leave a list that ends with the new value.
proof fn lemma_append_encodes(n0: Map<Option<u32>, LinkedItem>, s: Seq<u32>, v: u32)
    requires
        encodes(n0, s),
        !s.contains(v),
    ensures
        ({
            let head = read_node(n0, None);
            let n1 = n0.insert(None, LinkedItem { prev: Some(v), next: head.next });
            let prev = read_node(n1, head.prev);
            let n2 = n1.insert(head.prev, LinkedItem { prev: prev.prev, next: Some(v) });
            let n3 = n2.insert(Some(v), LinkedItem { prev: head.prev, next: None });
            encodes(n3, s.push(v))
        }),
{
    let head = read_node(n0, None);
    let n1 = n0.insert(None, LinkedItem { prev: Some(v), next: head.next });
    let prev = read_node(n1, head.prev);
    let n2 = n1.insert(head.prev, LinkedItem { prev: prev.prev, next: Some(v) });
    let n3 = n2.insert(Some(v), LinkedItem { prev: head.prev, next: None });
    let t = s.push(v);
    let n = s.len() as int;
    assert(t.no_duplicates()) by {
        assert forall|i: int, j: int| 0 <= i < t.len() && 0 <= j < t.len() && i != j implies t[i]
            != t[j] by {
            if i < n && j < n {
                assert(s[i] != s[j]);
            } else if i == n {
                assert(t[j] == s[j]);
                assert(s[j] != v) by {
                    if s[j] == v {
                        assert(s.contains(v));
                    }
                }
            } else {
                assert(t[i] == s[i]);
                assert(s[i] != v) by {
                    if s[i] == v {
                        assert(s.contains(v));
                    }
                }
            }
        }
    }
    if n == 0 {
        assert(head == empty_item());
        assert(read_node(n3, None) == head_of(t));
        assert forall|i: int| #![trigger t[i]] 0 <= i < t.len() implies n3.contains_key(Some(t[i]))
            && n3[Some(t[i])] == (LinkedItem { prev: prev_of(t, i), next: next_of(t, i) }) by {
            assert(i == 0);
        }
        assert forall|w: u32| #[trigger] n3.contains_key(Some(w)) implies t.contains(w) by {
            if w != v {
                assert(n0.contains_key(Some(w)));
                assert(s.contains(w));
            } else {
                assert(t[0] == w);
            }
        }
    } else {
        let last = s[n - 1];
        assert(s[n - 1] == s.last());
        assert(head.prev == Some(last));
        assert(n0[Some(last)] == (LinkedItem { prev: prev_of(s, n - 1), next: next_of(s, n - 1) }));
        assert(prev == n0[Some(last)]);
        assert(read_node(n3, None) == head_of(t)) by {
            assert(last != v);
        }
        assert forall|i: int| #![trigger t[i]] 0 <= i < t.len() implies n3.contains_key(Some(t[i]))
            && n3[Some(t[i])] == (LinkedItem { prev: prev_of(t, i), next: next_of(t, i) }) by {
            if i < n - 1 {
                assert(t[i] == s[i]);
                assert(s[i] != last);
                assert(s[i] != v);
                assert(n0.contains_key(Some(s[i])));
                assert(n0[Some(s[i])] == (LinkedItem { prev: prev_of(s, i), next: next_of(s, i) }));
                assert(prev_of(t, i) == prev_of(s, i));
                assert(next_of(t, i) == next_of(s, i));
            } else if i == n - 1 {
                assert(t[i] == last);
                assert(last != v);
                assert(prev_of(t, i) == prev_of(s, i));
            } else {
                assert(i == n);
                assert(t[i] == v);
            }
        }
        assert forall|w: u32| #[trigger] n3.contains_key(Some(w)) implies t.contains(w) by {
            if w == v {
                assert(t[n] == w);
            } else if w == last {
                assert(t[n - 1] == w);
            } else {
                assert(n0.contains_key(Some(w)));
                assert(s.contains(w));
                let j = choose|j: int| 0 <= j < s.len() && s[j] == w;
                assert(t[j] == w);
            }
        }
    }
}

/// Taking a value out of a list and relinking its neighbours leaves the list
/// without that value.
proof fn lemma_remove_encodes(n0: Map<Option<u32>, LinkedItem>, s: Seq<u32>, i: int)
    requires
        encodes(n0, s),
        0 <= i < s.len(),
    ensures
        ({
            let item = n0[Some(s[i])];
            let n1 = n0.remove(Some(s[i]));
            let prev = read_node(n1, item.prev);
            let n2 = n1.insert(item.prev, LinkedItem { prev: prev.prev, next: item.next });
            let next = read_node(n2, item.next);
            let n3 = n2.insert(item.next, LinkedItem { prev: item.prev, next: next.next });
            encodes(n3, s.remove(i))
        }),
{
    let v = s[i];
    let item = n0[Some(v)];
    let n1 = n0.remove(Some(v));
    let prev = read_node(n1, item.prev);
    let n2 = n1.insert(item.prev, LinkedItem { prev: prev.prev, next: item.next });
    let next = read_node(n2, item.next);
    let n3 = n2.insert(item.next, LinkedItem { prev: item.prev, next: next.next });
    let t = s.remove(i);
    let n = s.len() as int;
    assert(item == (LinkedItem { prev: prev_of(s, i), next: next_of(s, i) }));
    assert(t.len() == n - 1);
    assert forall|j: int| 0 <= j < i implies #[trigger] t[j] == s[j] by {}
    assert forall|j: int| i <= j < n - 1 implies #[trigger] t[j] == s[j + 1] by {}
    assert(t.no_duplicates()) by {
        assert forall|a: int, b: int| 0 <= a < t.len() && 0 <= b < t.len() && a != b implies t[a]
            != t[b] by {
            let a2 = if a < i { a } else { a + 1 };
            let b2 = if b < i { b } else { b + 1 };
            assert(t[a] == s[a2]);
            assert(t[b] == s[b2]);
            assert(s[a2] != s[b2]);
        }
    }
    // No value of the shortened list is the removed one.
    assert forall|j: int| 0 <= j < n && j != i implies #[trigger] s[j] != v by {}
    // The entries that the two writes touch.
    if i > 0 {
        assert(item.prev == Some(s[i - 1]));
        assert(s[i - 1] != v);
        assert(prev == n0[Some(s[i - 1])]);
    } else {
        assert(item.prev.is_none());
        assert(prev == read_node(n0, None));
    }
    if i < n - 1 {
        assert(item.next == Some(s[i + 1]));
        assert(s[i + 1] != v);
        if i > 0 {
            assert(s[i + 1] != s[i - 1]);
        }
        assert(next == n0[Some(s[i + 1])]);
    } else {
        assert(item.next.is_none());
    }
    assert(read_node(n3, None) == head_of(t)) by {
        if n == 1 {
            assert(t.len() == 0);
        } else if i == 0 {
            assert(t[0] == s[1]);
            assert(t.last() == s[n - 1]);
            assert(s.last() == s[n - 1]);
        } else if i == n - 1 {
            assert(t[0] == s[0]);
            assert(t.last() == s[n - 2]);
        } else {
            assert(t[0] == s[0]);
            assert(t.last() == s[n - 1]);
            assert(s.last() == s[n - 1]);
        }
    }
    assert forall|j: int| #![trigger t[j]] 0 <= j < t.len() implies n3.contains_key(Some(t[j]))
        && n3[Some(t[j])] == (LinkedItem { prev: prev_of(t, j), next: next_of(t, j) }) by {
        let j2 = if j < i { j } else { j + 1 };
        assert(t[j] == s[j2]);
        assert(s[j2] != v);
        if j2 == i - 1 {
            assert(prev_of(t, j) == prev_of(s, j2));
            assert(next_of(t, j) == next_of(s, i));
            if i < n - 1 {
                assert(s[i + 1] != s[j2]);
            }
        } else if j2 == i + 1 {
            assert(prev_of(t, j) == prev_of(s, i));
            assert(next_of(t, j) == next_of(s, j2));
        } else {
            if i > 0 {
                assert(s[i - 1] != s[j2]);
            }
            if i < n - 1 {
                assert(s[i + 1] != s[j2]);
            }
            assert(n0[Some(s[j2])] == (LinkedItem { prev: prev_of(s, j2), next: next_of(s, j2) }));
            assert(prev_of(t, j) == prev_of(s, j2));
            assert(next_of(t, j) == next_of(s, j2));
        }
    }
    assert forall|w: u32| #[trigger] n3.contains_key(Some(w)) implies t.contains(w) by {
        let k = if i > 0 && item.prev == Some(w) {
            i - 1
        } else if i < n - 1 && item.next == Some(w) {
            i + 1
        } else {
            assert(n0.contains_key(Some(w)));
            assert(s.contains(w));
            choose|k: int| 0 <= k < s.len() && s[k] == w
        };
        assert(s[k] == w);
        assert(k != i);
        let k2 = if k < i { k } else { k - 1 };
        assert(t[k2] == w);
    }
}

/// Removing a value just appended to a list gives the list back.
pub proof fn lemma_append_then_remove(s: Seq<u32>, v: u32)
    requires
        !s.contains(v),
    ensures
        s.push(v).contains(v),
        s.push(v).remove(s.push(v).index_of(v)) == s,
{
    let t = s.push(v);
    assert(t[s.len() as int] == v);
    let i = t.index_of(v);
    assert(0 <= i < t.len() && t[i] == v);
    if i < s.len() {
        assert(s[i] == v);
        assert(s.contains(v));
    }
    assert(t.remove(i) =~= s);
}

/// The lists of all accounts, stored node by node in one map.
pub struct LinkedList {
    items: BTreeMap<(u64, Option<u32>), LinkedItem>,
    lists: Ghost<Map<u64, Seq<u32>>>,
}

impl LinkedList {
    /// The stored entries, keyed by account and value (`None` for a head).
    pub closed spec fn storage(&self) -> Map<(u64, Option<u32>), LinkedItem> {
        self.items@
    }

    /// The values in the list of `acc`, first to last.
    pub closed spec fn list(&self, acc: u64) -> Seq<u32> {
        if self.lists@.contains_key(acc) {
            self.lists@[acc]
        } else {
            Seq::empty()
        }
    }

    /// Each account's entries encode that account's list.
    pub closed spec fn wf(&self) -> bool {
        forall|acc: u64| #[trigger] encodes(slice(self.items@, acc), self.list(acc))
    }

    /// The lists of every account other than `acc` are those of `other`.
    pub open spec fn same_lists_except(&self, other: &Self, acc: u64) -> bool {
        forall|a: u64| a != acc ==> #[trigger] self.list(a) == other.list(a)
    }

    pub fn new() -> (r: Self)
        ensures
            r.wf(),
            forall|acc: u64| #[trigger] r.list(acc) == Seq::<u32>::empty(),
            r.storage() == Map::<(u64, Option<u32>), LinkedItem>::empty(),
    {
        let r = LinkedList { items: BTreeMap::new(), lists: Ghost(Map::empty()) };
        assert forall|acc: u64| #[trigger] encodes(slice(r.items@, acc), r.list(acc)) by {
            assert(slice(r.items@, acc) =~= Map::empty());
        }
        r
    }

    /// The stored entries of `acc` form the linked list of `acc`'s values.
    pub proof fn lemma_wf_at(&self, acc: u64)
        requires
            self.wf(),
        ensures
            encodes(slice(self.storage(), acc), self.list(acc)),
    {
    }

    /// The stored entries of every account but `acc` are those of `other`.
    pub open spec fn same_storage_except(&self, other: &Self, acc: u64) -> bool {
        forall|a: u64| a != acc ==> #[trigger] slice(self.storage(), a) == slice(other.storage(), a)
    }

    /// No value occurs twice in a list.
    pub proof fn lemma_list_no_duplicates(&self, acc: u64)
        requires
            self.wf(),
        ensures
            self.list(acc).no_duplicates(),
    {
        self.lemma_wf_at(acc);
    }

    /// The entry stored for `acc` at `at`, if any.
    pub fn get(&self, acc: u64, at: Option<u32>) -> (r: Option<LinkedItem>)
        ensures
            r == (if self.storage().contains_key((acc, at)) {
                Some(self.storage()[(acc, at)])
            } else {
                None
            }),
    {
        match self.items.get(&(acc, at)) {
            Some(item) => Some(*item),
            None => None,
        }
    }

    /// Whether `v` is in the list of `acc`.
    pub fn contains(&self, acc: u64, v: u32) -> (r: bool)
        requires
            self.wf(),
        ensures
            r == self.list(acc).contains(v),
    {
        proof {
            self.lemma_wf_at(acc);
        }
        let r = self.items.contains_key(&(acc, Some(v)));
        proof {
            let s = self.list(acc);
            let nodes = slice(self.items@, acc);
            if s.contains(v) {
                let i = choose|i: int| 0 <= i < s.len() && s[i] == v;
                assert(nodes.contains_key(Some(s[i])));
            }
            if r {
                assert(nodes.contains_key(Some(v)));
            }
        }
        r
    }

    fn read(&self, acc: u64, at: Option<u32>) -> (r: LinkedItem)
        ensures
            r == read_node(slice(self.storage(), acc), at),
    {
        match self.items.get(&(acc, at)) {
            Some(item) => *item,
            None => LinkedItem { prev: None, next: None },
        }
    }

    /// Adds `v` at the end of the list of `acc`.
    pub fn append(&mut self, acc: u64, v: u32)
        requires
            old(self).wf(),
            !old(self).list(acc).contains(v),
        ensures
            final(self).wf(),
            final(self).list(acc) == old(self).list(acc).push(v),
            final(self).same_lists_except(&*old(self), acc),
            final(self).storage().contains_key((acc, Some(v))),
            final(self).same_storage_except(&*old(self), acc),
    {
        let ghost s = self.list(acc);
        let ghost m0 = self.items@;
        proof {
            self.lemma_wf_at(acc);
            lemma_append_encodes(slice(m0, acc), s, v);
        }
        let head = self.read(acc, None);
        let new_head = LinkedItem { prev: Some(v), next: head.next };
        self.items.insert((acc, None), new_head);
        let ghost m1 = self.items@;
        proof {
            lemma_slice_insert(m0, acc, None, new_head);
        }
        let prev = self.read(acc, head.prev);
        let new_prev = LinkedItem { prev: prev.prev, next: Some(v) };
        self.items.insert((acc, head.prev), new_prev);
        let ghost m2 = self.items@;
        proof {
            lemma_slice_insert(m1, acc, head.prev, new_prev);
        }
        let item = LinkedItem { prev: head.prev, next: None };
        self.items.insert((acc, Some(v)), item);
        proof {
            lemma_slice_insert(m2, acc, Some(v), item);
            let old_lists = self.lists@;
            self.lists@ = self.lists@.insert(acc, s.push(v));
            assert forall|a: u64| #[trigger] encodes(slice(self.items@, a), self.list(a)) by {
                if a != acc {
                    assert(self.list(a) == old(self).list(a));
                    assert(encodes(slice(m0, a), old(self).list(a)));
                }
            }
        }
    }

    /// Takes `v` out of the list of `acc`; nothing happens where it is not there.
    pub fn remove(&mut self, acc: u64, v: u32)
        requires
            old(self).wf(),
        ensures
            final(self).wf(),
            final(self).list(acc) == (if old(self).list(acc).contains(v) {
                old(self).list(acc).remove(old(self).list(acc).index_of(v))
            } else {
                old(self).list(acc)
            }),
            final(self).same_lists_except(&*old(self), acc),
            !final(self).storage().contains_key((acc, Some(v))),
            final(self).same_storage_except(&*old(self), acc),
    {
        let ghost s = self.list(acc);
        let ghost m0 = self.items@;
        proof {
            self.lemma_wf_at(acc);
        }
        match self.items.remove(&(acc, Some(v))) {
            Some(item) => {
                let ghost i = s.index_of(v);
                proof {
                    lemma_slice_remove(m0, acc, Some(v));
                    assert(slice(m0, acc).contains_key(Some(v)));
                    assert(s.contains(v));
                    assert(0 <= i < s.len() && s[i] == v);
                    lemma_remove_encodes(slice(m0, acc), s, i);
                }
                let ghost m1 = self.items@;
                let prev = self.read(acc, item.prev);
                let new_prev = LinkedItem { prev: prev.prev, next: item.next };
                self.items.insert((acc, item.prev), new_prev);
                let ghost m2 = self.items@;
                proof {
                    lemma_slice_insert(m1, acc, item.prev, new_prev);
                }
                let next = self.read(acc, item.next);
                let new_next = LinkedItem { prev: item.prev, next: next.next };
                self.items.insert((acc, item.next), new_next);
                proof {
                    lemma_slice_insert(m2, acc, item.next, new_next);
                    self.lists@ = self.lists@.insert(acc, s.remove(i));
                    assert forall|a: u64| #[trigger] encodes(slice(self.items@, a), self.list(a)) by {
                        if a != acc {
                            assert(self.list(a) == old(self).list(a));
                            assert(encodes(slice(m0, a), old(self).list(a)));
                        }
                    }
                }
            },
            None => {
                proof {
                    assert(!s.contains(v)) by {
                        if s.contains(v) {
                            let j = choose|j: int| 0 <= j < s.len() && s[j] == v;
                            assert(slice(m0, acc).contains_key(Some(s[j])));
                        }
                    }
                    assert(self.items@ =~= m0);
                    assert forall|a: u64| #[trigger] encodes(slice(self.items@, a), self.list(a)) by {
                        assert(encodes(slice(m0, a), old(self).list(a)));
                    }
                }
            },
        }
    }
}

} // verus!
