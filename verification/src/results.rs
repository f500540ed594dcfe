//! The candidate set: an address-ordered mapping from address to candidate,
//! with unique keys, kept sorted so a session's results read out in address
//! order no matter in which order the scan produced them.
use crate::memory::ReadFromBytes;
use crate::region::AddressInfo;
use vstd::prelude::*;

verus! {

/// One candidate: where it lives, its address again as the key, and the
/// value decoded there when it was last read.
pub type AddressValue<T> = (AddressInfo, usize, T);

/// A pending write: the candidate address to write to, and the new value.
pub type Writer<T> = (usize, T);

/// Spec-level lookup of an address in a candidate sequence.
pub open spec fn lookup<T>(s: Seq<AddressValue<T>>, a: usize) -> Option<AddressValue<T>>
    decreases s.len(),
{
    if s.len() == 0 {
        None
    } else if s[0].1 == a {
        Some(s[0])
    } else {
        lookup(s.skip(1), a)
    }
}

/// The current results of a query: an ordered map keyed by address.
#[derive(Debug, Clone)]
pub struct CurrentQueryResults<T> {
    entries: Vec<AddressValue<T>>,
}

impl<T: ReadFromBytes> CurrentQueryResults<T> {
    /// The candidates in address order.
    pub closed spec fn view(&self) -> Seq<AddressValue<T>> {
        self.entries@
    }

    /// Strictly increasing addresses: keys are unique and ordered.
    pub open spec fn wf(&self) -> bool {
        forall|i: int, j: int| 0 <= i < j < self@.len() ==> self@[i].1 < self@[j].1
    }

    pub open spec fn contains_addr(&self, a: usize) -> bool {
        exists|i: int| 0 <= i < self@.len() && (#[trigger] self@[i]).1 == a
    }

    pub fn new() -> (r: Self)
        ensures
            r@ == Seq::<AddressValue<T>>::empty(),
            r.wf(),
    {
        CurrentQueryResults { entries: Vec::new() }
    }

    pub fn len(&self) -> (n: usize)
        ensures
            n == self@.len(),
    {
        self.entries.len()
    }

    pub fn is_empty(&self) -> (r: bool)
        ensures
            r == (self@.len() == 0),
    {
        self.entries.len() == 0
    }

    /// The candidate at position `i` in address order.
    pub fn index(&self, i: usize) -> (r: &AddressValue<T>)
        requires
            i < self@.len(),
        ensures
            *r == self@[i as int],
    {
        &self.entries[i]
    }

    /// Find the candidate stored under address `a`.
    pub fn get(&self, a: usize) -> (r: Option<&AddressValue<T>>)
        ensures
            match r {
                Some(v) => lookup(self@, a) == Some(*v) && v.1 == a && self.contains_addr(a),
                None => lookup(self@, a) is None && !self.contains_addr(a),
            },
    {
        let n = self.entries.len();
        let mut i: usize = 0;
        while i < n
            invariant
                0 <= i <= n,
                n == self@.len(),
                forall|j: int| 0 <= j < i ==> (#[trigger] self@[j]).1 != a,
            decreases n - i,
        {
            if self.entries[i].1 == a {
                proof {
                    lemma_lookup_first(self@, i as int, a);
                }
                return Some(&self.entries[i]);
            }
            i = i + 1;
        }
        proof {
            lemma_lookup_absent(self@, a);
        }
        None
    }

    /// Insert a candidate under its own address, replacing any previous
    /// entry for that address and keeping the order.
    pub fn insert(&mut self, v: AddressValue<T>)
        requires
            old(self).wf(),
        ensures
            final(self).wf(),
            final(self).contains_addr(v.1),
            lookup(final(self)@, v.1) == Some::<AddressValue<T>>(v),
            forall|a: usize|
                a != v.1 ==> #[trigger] lookup(final(self)@, a) == lookup(old(self)@, a),
            forall|i: int|
                0 <= i < final(self)@.len() ==> #[trigger] final(self)@[i] == v || exists|j: int|
                    0 <= j < old(self)@.len() && final(self)@[i] == #[trigger] old(self)@[j],
            (forall|j: int| 0 <= j < old(self)@.len() ==> (#[trigger] old(self)@[j]).1 < v.1)
                ==> final(self)@ == old(self)@.push(v),
            old(self).contains_addr(v.1) ==> final(self)@.len() == old(self)@.len(),
            !old(self).contains_addr(v.1) ==> final(self)@.len() == old(self)@.len() + 1,
    {
        let n = self.entries.len();
        let mut i: usize = 0;
        while i < n
            invariant
                0 <= i <= n,
                n == self@.len(),
                self@ == old(self)@,
                self.wf(),
                forall|j: int| 0 <= j < i ==> (#[trigger] self@[j]).1 < v.1,
            decreases n - i,
        {
            let here = self.entries[i].1;
            if here == v.1 {
                proof {
                    assert((#[trigger] old(self)@[i as int]).1 == v.1);
                    assert(old(self).contains_addr(v.1));
                }
                self.entries.set(i, v);
                proof {
                    lemma_lookup_set(old(self)@, self@, i as int, v);
                    assert(self@[i as int] == v);
                }
                return ;
            }
            if here > v.1 {
                proof {
                    assert forall|j: int|
                        0 <= j < old(self)@.len() implies (#[trigger] old(self)@[j]).1 != v.1 by {
                        if j > i {
                            assert(old(self)@[i as int].1 < old(self)@[j].1);
                        }
                    }
                    assert(!old(self).contains_addr(v.1));
                }
                self.entries.insert(i, v);
                proof {
                    lemma_lookup_insert(old(self)@, self@, i as int, v);
                    assert(self@[i as int] == v);
                }
                return ;
            }
            i = i + 1;
        }
        proof {
            assert(forall|j: int| 0 <= j < old(self)@.len() ==> (#[trigger] old(self)@[j]).1 != v.1);
            assert(!old(self).contains_addr(v.1));
        }
        self.entries.push(v);
        proof {
            assert(self@ =~= old(self)@.insert(n as int, v));
            lemma_lookup_insert(old(self)@, self@, n as int, v);
            assert(self@[n as int] == v);
        }
    }

    /// Adopt a vector whose entries are already strictly ordered by
    /// address.
    pub fn from_sorted(entries: Vec<AddressValue<T>>) -> (r: Self)
        requires
            forall|p: int, q: int|
                0 <= p < q < entries@.len() ==> (#[trigger] entries@[p]).1 < (
                #[trigger] entries@[q]).1,
        ensures
            r@ == entries@,
            r.wf(),
    {
        CurrentQueryResults { entries }
    }

    /// A structural copy of the set, entry for entry.
    pub fn duplicate(&self) -> (r: Self)
        ensures
            r@ == self@,
    {
        let mut entries: Vec<AddressValue<T>> = Vec::new();
        let n = self.entries.len();
        let mut i: usize = 0;
        while i < n
            invariant
                0 <= i <= n,
                n == self@.len(),
                entries@ == self@.take(i as int),
            decreases n - i,
        {
            entries.push(self.entries[i]);
            proof {
                assert(entries@ =~= self@.take(i + 1 as int));
            }
            i = i + 1;
        }
        proof {
            assert(self@.take(n as int) =~= self@);
        }
        CurrentQueryResults { entries }
    }

    /// Remove the candidate at address `a`, if present.
    pub fn remove(&mut self, a: usize)
        requires
            old(self).wf(),
        ensures
            final(self).wf(),
            !final(self).contains_addr(a),
            lookup(final(self)@, a) is None,
            forall|b: usize| b != a ==> #[trigger] lookup(final(self)@, b) == lookup(old(self)@, b),
            forall|i: int|
                0 <= i < final(self)@.len() ==> exists|j: int|
                    0 <= j < old(self)@.len() && #[trigger] final(self)@[i] == #[trigger] old(
                        self,
                    )@[j],
    {
        let n = self.entries.len();
        let mut i: usize = 0;
        while i < n
            invariant
                0 <= i <= n,
                n == self@.len(),
                self@ == old(self)@,
                self.wf(),
                forall|j: int| 0 <= j < i ==> (#[trigger] self@[j]).1 != a,
            decreases n - i,
        {
            if self.entries[i].1 == a {
                self.entries.remove(i);
                proof {
                    lemma_lookup_remove(old(self)@, self@, i as int, a);
                }
                return ;
            }
            i = i + 1;
        }
        proof {
            lemma_lookup_absent(self@, a);
        }
    }
}

/// `lookup` finds the entry at the first index that holds the address.
proof fn lemma_lookup_first<T>(s: Seq<AddressValue<T>>, i: int, a: usize)
    requires
        0 <= i < s.len(),
        s[i].1 == a,
        forall|j: int| 0 <= j < i ==> (#[trigger] s[j]).1 != a,
    ensures
        lookup(s, a) == Some(s[i]),
    decreases i,
{
    if i > 0 {
        assert(forall|j: int| 0 <= j < s.skip(1).len() ==> s.skip(1)[j] == s[j + 1]);
        lemma_lookup_first(s.skip(1), i - 1, a);
    }
}

/// When no index holds `a`, `lookup` returns `None`.
proof fn lemma_lookup_absent<T>(s: Seq<AddressValue<T>>, a: usize)
    requires
        forall|i: int| 0 <= i < s.len() ==> (#[trigger] s[i]).1 != a,
    ensures
        lookup(s, a) is None,
    decreases s.len(),
{
    if s.len() > 0 {
        assert(forall|i: int| 0 <= i < s.skip(1).len() ==> s.skip(1)[i] == s[i + 1]);
        lemma_lookup_absent(s.skip(1), a);
    }
}

/// In a strictly sorted sequence, `lookup` finds exactly the entry at the
/// index that holds the address.
proof fn lemma_lookup_found<T>(s: Seq<AddressValue<T>>, i: int)
    requires
        0 <= i < s.len(),
        forall|p: int, q: int| 0 <= p < q < s.len() ==> (#[trigger] s[p]).1 < (#[trigger] s[q]).1,
    ensures
        lookup(s, s[i].1) == Some(s[i]),
    decreases i,
{
    if i > 0 {
        assert(s[0].1 < s[i].1);
        assert(forall|j: int| 0 <= j < s.skip(1).len() ==> s.skip(1)[j] == s[j + 1]);
        lemma_lookup_found(s.skip(1), i - 1);
    }
}

proof fn lemma_lookup_set<T>(pre: Seq<AddressValue<T>>, post: Seq<AddressValue<T>>, i: int, v: AddressValue<T>)
    requires
        0 <= i < pre.len(),
        post == pre.update(i, v),
        pre[i].1 == v.1,
        forall|p: int, q: int| 0 <= p < q < pre.len() ==> (#[trigger] pre[p]).1 < (
        #[trigger] pre[q]).1,
    ensures
        forall|p: int, q: int| 0 <= p < q < post.len() ==> (#[trigger] post[p]).1 < (
        #[trigger] post[q]).1,
        lookup(post, v.1) == Some(v),
        forall|a: usize| a != v.1 ==> #[trigger] lookup(post, a) == lookup(pre, a),
        forall|k: int|
            0 <= k < post.len() ==> (#[trigger] post[k]) == v || exists|j: int|
                0 <= j < pre.len() && post[k] == #[trigger] pre[j],
{
    assert(forall|p: int, q: int|
        0 <= p < q < post.len() ==> (#[trigger] post[p]).1 < (#[trigger] post[q]).1);
    lemma_lookup_found(post, i);
    assert forall|a: usize| a != v.1 implies #[trigger] lookup(post, a) == lookup(pre, a) by {
        match lookup(pre, a) {
            Some(w) => {
                lemma_lookup_index(pre, a);
                let j = choose|j: int| 0 <= j < pre.len() && pre[j] == w && #[trigger] pre[j].1 == a;
                assert(j != i);
                assert(post[j] == w);
                lemma_lookup_found(pre, j);
                lemma_lookup_found(post, j);
            },
            None => {
                lemma_lookup_none_means_absent(pre, a);
                assert(forall|k: int| 0 <= k < post.len() ==> (#[trigger] post[k]).1 != a);
                lemma_lookup_absent(post, a);
            },
        }
    }
}

/// A successful lookup names some index.
proof fn lemma_lookup_index<T>(s: Seq<AddressValue<T>>, a: usize)
    requires
        lookup(s, a) is Some,
    ensures
        exists|j: int|
            0 <= j < s.len() && s[j] == lookup(s, a)->Some_0 && (#[trigger] s[j]).1 == a,
    decreases s.len(),
{
    if s.len() > 0 && s[0].1 != a {
        assert(forall|j: int| 0 <= j < s.skip(1).len() ==> s.skip(1)[j] == s[j + 1]);
        lemma_lookup_index(s.skip(1), a);
        let j = choose|j: int|
            0 <= j < s.skip(1).len() && s.skip(1)[j] == lookup(s.skip(1), a)->Some_0 && (
            #[trigger] s.skip(1)[j]).1 == a;
        assert(s[j + 1] == s.skip(1)[j]);
    }
}

/// A failed lookup means no index holds the address.
proof fn lemma_lookup_none_means_absent<T>(s: Seq<AddressValue<T>>, a: usize)
    requires
        lookup(s, a) is None,
    ensures
        forall|i: int| 0 <= i < s.len() ==> (#[trigger] s[i]).1 != a,
    decreases s.len(),
{
    if s.len() > 0 {
        assert(s[0].1 != a);
        assert(forall|j: int| 0 <= j < s.skip(1).len() ==> s.skip(1)[j] == s[j + 1]);
        lemma_lookup_none_means_absent(s.skip(1), a);
        assert forall|i: int| 0 <= i < s.len() implies (#[trigger] s[i]).1 != a by {
            if i > 0 {
                assert(s.skip(1)[i - 1] == s[i]);
            }
        }
    }
}

proof fn lemma_lookup_insert<T>(pre: Seq<AddressValue<T>>, post: Seq<AddressValue<T>>, i: int, v: AddressValue<T>)
    requires
        0 <= i <= pre.len(),
        post == pre.insert(i, v),
        forall|j: int| 0 <= j < i ==> (#[trigger] pre[j]).1 < v.1,
        forall|j: int| i <= j < pre.len() ==> (#[trigger] pre[j]).1 > v.1,
        forall|p: int, q: int| 0 <= p < q < pre.len() ==> (#[trigger] pre[p]).1 < (
        #[trigger] pre[q]).1,
    ensures
        forall|p: int, q: int| 0 <= p < q < post.len() ==> (#[trigger] post[p]).1 < (
        #[trigger] post[q]).1,
        lookup(post, v.1) == Some(v),
        forall|a: usize| a != v.1 ==> #[trigger] lookup(post, a) == lookup(pre, a),
        forall|k: int|
            0 <= k < post.len() ==> (#[trigger] post[k]) == v || exists|j: int|
                0 <= j < pre.len() && post[k] == #[trigger] pre[j],
{
    assert(post.len() == pre.len() + 1);
    assert(forall|j: int| 0 <= j < i ==> post[j] == pre[j]);
    assert(post[i] == v);
    assert(forall|j: int| i < j < post.len() ==> post[j] == pre[j - 1]);
    assert forall|p: int, q: int| 0 <= p < q < post.len() implies (#[trigger] post[p]).1 < (
    #[trigger] post[q]).1 by {}
    lemma_lookup_found(post, i);
    assert forall|a: usize| a != v.1 implies #[trigger] lookup(post, a) == lookup(pre, a) by {
        match lookup(pre, a) {
            Some(w) => {
                lemma_lookup_index(pre, a);
                let j = choose|j: int| 0 <= j < pre.len() && pre[j] == w && #[trigger] pre[j].1 == a;
                lemma_lookup_found(pre, j);
                if j < i {
                    assert(post[j] == w);
                    lemma_lookup_found(post, j);
                } else {
                    assert(post[j + 1] == w);
                    lemma_lookup_found(post, j + 1);
                }
            },
            None => {
                lemma_lookup_none_means_absent(pre, a);
                assert forall|k: int| 0 <= k < post.len() implies (#[trigger] post[k]).1 != a by {
                    if k < i {
                        assert(post[k] == pre[k]);
                    } else if k > i {
                        assert(post[k] == pre[k - 1]);
                    }
                }
                lemma_lookup_absent(post, a);
            },
        }
    }
}

proof fn lemma_lookup_remove<T>(pre: Seq<AddressValue<T>>, post: Seq<AddressValue<T>>, i: int, a: usize)
    requires
        0 <= i < pre.len(),
        post == pre.remove(i),
        pre[i].1 == a,
        forall|p: int, q: int| 0 <= p < q < pre.len() ==> (#[trigger] pre[p]).1 < (
        #[trigger] pre[q]).1,
    ensures
        forall|p: int, q: int| 0 <= p < q < post.len() ==> (#[trigger] post[p]).1 < (
        #[trigger] post[q]).1,
        forall|k: int| 0 <= k < post.len() ==> (#[trigger] post[k]).1 != a,
        lookup(post, a) is None,
        forall|b: usize| b != a ==> #[trigger] lookup(post, b) == lookup(pre, b),
        forall|k: int|
            0 <= k < post.len() ==> exists|j: int|
                0 <= j < pre.len() && #[trigger] post[k] == pre[j],
{
    assert(post.len() == pre.len() - 1);
    assert(forall|j: int| 0 <= j < i ==> post[j] == pre[j]);
    assert(forall|j: int| i <= j < post.len() ==> post[j] == pre[j + 1]);
    assert forall|k: int| 0 <= k < post.len() implies (#[trigger] post[k]).1 != a by {
        if k < i {
            assert(pre[k].1 < pre[i].1);
        } else {
            assert(pre[i].1 < pre[k + 1].1);
        }
    }
    lemma_lookup_absent(post, a);
    assert forall|b: usize| b != a implies #[trigger] lookup(post, b) == lookup(pre, b) by {
        match lookup(pre, b) {
            Some(w) => {
                lemma_lookup_index(pre, b);
                let j = choose|j: int| 0 <= j < pre.len() && pre[j] == w && #[trigger] pre[j].1 == b;
                lemma_lookup_found(pre, j);
                if j < i {
                    lemma_lookup_found(post, j);
                } else {
                    assert(post[j - 1] == w);
                    lemma_lookup_found(post, j - 1);
                }
            },
            None => {
                lemma_lookup_none_means_absent(pre, b);
                assert forall|k: int| 0 <= k < post.len() implies (#[trigger] post[k]).1 != b by {
                    if k < i {
                        assert(post[k] == pre[k]);
                    } else {
                        assert(post[k] == pre[k + 1]);
                    }
                }
                lemma_lookup_absent(post, b);
            },
        }
    }
}

} // verus!
