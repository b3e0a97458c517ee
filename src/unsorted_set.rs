use vstd::prelude::*;
use crate::pid::Pid;

verus! {

/// An element whose identity in a set is a key.
pub trait Keyed: Sized {
    type Key;

    spec fn key(&self) -> Self::Key;

    fn same_key(&self, other: &Self) -> (r: bool)
        ensures
            r == (self.key() == other.key()),
    ;

    fn copy_item(&self) -> (r: Self)
        ensures
            r == *self,
    ;
}

impl Keyed for Pid {
    type Key = u64;

    open spec fn key(&self) -> u64 {
        self.0
    }

    fn same_key(&self, other: &Self) -> (r: bool) {
        self.0 == other.0
    }

    fn copy_item(&self) -> (r: Self) {
        *self
    }
}

/// A set without order: up to `N` elements live in a fast array, the rest
/// in an overflow list. Elements are told apart by their keys.
pub struct UnsortedSet<T, const N: usize> {
    data: Vec<T>,
    overflow: Vec<T>,
}

/// Whether `s` holds an element with key `k`.
pub open spec fn has_key<T: Keyed>(s: Seq<T>, k: T::Key) -> bool {
    exists|i: int| 0 <= i < s.len() && (#[trigger] s[i]).key() == k
}

/// No two elements of `s` share a key.
pub open spec fn keys_distinct<T: Keyed>(s: Seq<T>) -> bool {
    forall|i: int, j: int| 0 <= i < s.len() && 0 <= j < s.len() && i != j ==> (#[trigger] s[i]).key() != (#[trigger] s[j]).key()
}

/// Removing the element at `i` from a sequence without repeated keys leaves
/// one without repeated keys, and without the key of the element removed.
pub proof fn lemma_remove_keeps_distinct<T: Keyed>(s: Seq<T>, i: int)
    requires
        keys_distinct(s),
        0 <= i < s.len(),
    ensures
        keys_distinct(s.remove(i)),
        !has_key(s.remove(i), s[i].key()),
{
    let t = s.remove(i);
    assert forall|a: int, b: int| 0 <= a < t.len() && 0 <= b < t.len() && a != b implies (#[trigger] t[a]).key() != (#[trigger] t[b]).key() by {
        let a2 = if a < i { a } else { a + 1 };
        let b2 = if b < i { b } else { b + 1 };
        assert(t[a] == s[a2]);
        assert(t[b] == s[b2]);
    }
    if has_key(t, s[i].key()) {
        let k = choose|k: int| 0 <= k < t.len() && (#[trigger] t[k]).key() == s[i].key();
        let k2 = if k < i { k } else { k + 1 };
        assert(t[k] == s[k2]);
    }
}

/// A key is in `s.push(x)` when it is in `s` or is the key of `x`.
pub proof fn lemma_has_key_push<T: Keyed>(s: Seq<T>, x: T, k: T::Key)
    ensures
        has_key(s.push(x), k) <==> (has_key(s, k) || x.key() == k),
{
    let t = s.push(x);
    if has_key(s, k) {
        let m = choose|m: int| 0 <= m < s.len() && (#[trigger] s[m]).key() == k;
        assert(t[m] == s[m]);
    }
    if x.key() == k {
        assert(t[s.len() as int] == x);
    }
    if has_key(t, k) {
        let m = choose|m: int| 0 <= m < t.len() && (#[trigger] t[m]).key() == k;
        if m < s.len() {
            assert(t[m] == s[m]);
        }
    }
}

/// In a sequence without repeated keys, removing the element at `i` removes
/// exactly the elements with its key.
pub proof fn lemma_contains_after_remove<T: Keyed>(s: Seq<T>, i: int)
    requires
        keys_distinct(s),
        0 <= i < s.len(),
    ensures
        forall|x: T| #[trigger] s.remove(i).contains(x) <==> (s.contains(x) && x.key() != s[i].key()),
{
    let t = s.remove(i);
    assert forall|x: T| #[trigger] t.contains(x) <==> (s.contains(x) && x.key() != s[i].key()) by {
        if t.contains(x) {
            let m = choose|m: int| 0 <= m < t.len() && t[m] == x;
            let m2 = if m < i { m } else { m + 1 };
            assert(s[m2] == x);
            assert(m2 != i);
        }
        if s.contains(x) && x.key() != s[i].key() {
            let m = choose|m: int| 0 <= m < s.len() && s[m] == x;
            assert(m != i);
            if m < i { assert(t[m] == x); } else { assert(t[m - 1] == x); }
        }
    }
}

/// `s.push(v)` holds the elements of `s` and `v`.
pub proof fn lemma_contains_after_push<T>(s: Seq<T>, v: T)
    ensures
        forall|x: T| #[trigger] s.push(v).contains(x) <==> (s.contains(x) || x == v),
{
    let t = s.push(v);
    assert forall|x: T| #[trigger] t.contains(x) <==> (s.contains(x) || x == v) by {
        if t.contains(x) {
            let m = choose|m: int| 0 <= m < t.len() && t[m] == x;
            if m < s.len() { assert(s[m] == x); }
        }
        if s.contains(x) {
            let m = choose|m: int| 0 <= m < s.len() && s[m] == x;
            assert(t[m] == x);
        }
        if x == v { assert(t[s.len() as int] == x); }
    }
}

/// An element whose key is not in `s` is not in `s`.
pub proof fn lemma_contains_has_key<T: Keyed>(s: Seq<T>, x: T)
    requires
        s.contains(x),
    ensures
        has_key(s, x.key()),
{
    let m = choose|m: int| 0 <= m < s.len() && s[m] == x;
    assert(s[m].key() == x.key());
}

/// The key and element sets after setting `value`: removing its key, then
/// inserting it.
pub proof fn lemma_replace<T: Keyed>(before: Seq<T>, mid: Seq<T>, after: Seq<T>, value: T, removed: bool)
    requires
        keys_distinct(before),
        removed ==> exists|i: int| 0 <= i < before.len() && (#[trigger] before[i]).key() == value.key() && mid == before.remove(i),
        !removed ==> mid == before && !has_key(before, value.key()),
        after == mid.push(value),
    ensures
        forall|x: T| #[trigger] after.contains(x) <==> (x == value || (before.contains(x) && x.key() != value.key())),
{
    lemma_contains_after_push(mid, value);
    if removed {
        let i = choose|i: int| 0 <= i < before.len() && (#[trigger] before[i]).key() == value.key() && mid == before.remove(i);
        lemma_contains_after_remove(before, i);
    } else {
        assert forall|x: T| before.contains(x) implies x.key() != value.key() by {
            lemma_contains_has_key(before, x);
        }
    }
}

impl<T: Keyed, const N: usize> UnsortedSet<T, N> {
    /// All elements: those of the fast array, then those of the overflow.
    pub closed spec fn items(&self) -> Seq<T> {
        self.data@ + self.overflow@
    }

    /// How many elements sit in the fast array.
    pub closed spec fn fast_len(&self) -> nat {
        self.data@.len()
    }

    /// How many elements sit in the overflow list.
    pub closed spec fn overflow_len(&self) -> nat {
        self.overflow@.len()
    }

    pub open spec fn contains_key(&self, k: T::Key) -> bool {
        has_key(self.items(), k)
    }

    pub closed spec fn wf(&self) -> bool {
        &&& self.data@.len() <= N
        &&& self.overflow@.len() > 0 ==> self.data@.len() == N
        &&& keys_distinct(self.items())
    }

    /// Every element sits in the fast array or the overflow, and a set
    /// holding `N` elements or more has a full fast array.
    pub proof fn lemma_full_fast_array(&self)
        requires
            self.wf(),
        ensures
            self.items().len() == self.fast_len() + self.overflow_len(),
            self.items().len() >= N ==> self.fast_len() == N,
            self.items().len() < N ==> self.overflow_len() == 0,
    {
    }

    pub fn new() -> (r: Self)
        ensures
            r.wf(),
            r.items() == Seq::<T>::empty(),
            r.fast_len() == 0,
            r.overflow_len() == 0,
    {
        UnsortedSet { data: Vec::new(), overflow: Vec::new() }
    }

    pub proof fn lemma_items_distinct(&self)
        requires
            self.wf(),
        ensures
            keys_distinct(self.items()),
    {
    }

    /// Index in `v` of the element with the key of `value`, if any.
    fn find_in(v: &Vec<T>, value: &T) -> (r: Option<usize>)
        ensures
            match r {
                Some(i) => i < v@.len() && v@[i as int].key() == value.key(),
                None => !has_key(v@, value.key()),
            },
    {
        let mut i: usize = 0;
        while i < v.len()
            invariant
                i <= v@.len(),
                forall|j: int| 0 <= j < i ==> (#[trigger] v@[j]).key() != value.key(),
            decreases v@.len() - i,
        {
            if v[i].same_key(value) {
                return Some(i);
            }
            i = i + 1;
        }
        None
    }

    pub fn contains(&self, value: &T) -> (r: bool)
        requires
            self.wf(),
        ensures
            r == self.contains_key(value.key()),
    {
        let a = Self::find_in(&self.data, value);
        let b = Self::find_in(&self.overflow, value);
        proof {
            let s = self.items();
            let d = self.data@.len() as int;
            if has_key(s, value.key()) {
                let i = choose|i: int| 0 <= i < s.len() && (#[trigger] s[i]).key() == value.key();
                if i < d {
                    assert(self.data@[i] == s[i]);
                } else {
                    assert(self.overflow@[i - d] == s[i]);
                }
            }
            if let Some(i) = a {
                assert(s[i as int] == self.data@[i as int]);
            }
            if let Some(j) = b {
                assert(s[d + j] == self.overflow@[j as int]);
            }
        }
        a.is_some() || b.is_some()
    }

    /// Adds `value` unless an element with its key is present. Returns
    /// whether it was added. A full fast array sends it to the overflow.
    pub fn insert(&mut self, value: T) -> (r: bool)
        requires
            old(self).wf(),
        ensures
            final(self).wf(),
            r == !old(self).contains_key(value.key()),
            r ==> final(self).items() == old(self).items().push(value),
            !r ==> final(self).items() == old(self).items(),
            r && old(self).fast_len() < N ==> final(self).fast_len() == old(self).fast_len() + 1
                && final(self).overflow_len() == 0,
            r && old(self).fast_len() == N ==> final(self).fast_len() == N
                && final(self).overflow_len() == old(self).overflow_len() + 1,
            r && old(self).items().len() >= N ==> final(self).fast_len() == N
                && final(self).overflow_len() == old(self).overflow_len() + 1
                && final(self).items().subrange(0, N as int) == old(self).items().subrange(0, N as int),
    {
        if self.contains(&value) {
            return false;
        }
        proof { self.lemma_full_fast_array(); }
        let ghost s = self.items();
        if self.data.len() < N {
            self.data.push(value);
        } else {
            self.overflow.push(value);
        }
        assert(self.items() =~= s.push(value));
        true
    }

    /// Removes the element with the key of `value`. Returns whether one was
    /// present. The first element of the overflow moves into the fast array
    /// when a removal leaves room there.
    pub fn remove(&mut self, value: &T) -> (r: bool)
        requires
            old(self).wf(),
        ensures
            final(self).wf(),
            r == old(self).contains_key(value.key()),
            !r ==> final(self).items() == old(self).items(),
            r ==> exists|i: int|
                0 <= i < old(self).items().len()
                && (#[trigger] old(self).items()[i]).key() == value.key()
                && final(self).items() == old(self).items().remove(i),
            !final(self).contains_key(value.key()),
    {
        let ghost s = self.items();
        let ghost d = self.data@.len() as int;
        match Self::find_in(&self.data, value) {
            Some(i) => {
                let _ = self.data.remove(i);
                if self.overflow.len() > 0 {
                    let first = self.overflow.remove(0);
                    self.data.push(first);
                }
                assert(self.items() =~= s.remove(i as int));
                assert(s[i as int] == old(self).data@[i as int]);
                proof { lemma_remove_keeps_distinct(s, i as int); }
                true
            },
            None => match Self::find_in(&self.overflow, value) {
                Some(j) => {
                    let _ = self.overflow.remove(j);
                    assert(self.items() =~= s.remove(d + j));
                    assert(s[d + j] == old(self).overflow@[j as int]);
                    proof { lemma_remove_keeps_distinct(s, d + j); }
                    true
                },
                None => {
                    proof {
                        if has_key(s, value.key()) {
                            let k = choose|k: int| 0 <= k < s.len() && (#[trigger] s[k]).key() == value.key();
                            if k < d {
                                assert(self.data@[k] == s[k]);
                            } else {
                                assert(self.overflow@[k - d] == s[k]);
                            }
                        }
                    }
                    false
                },
            },
        }
    }

    pub fn len(&self) -> (r: usize)
        requires
            self.wf(),
            self.items().len() <= usize::MAX,
        ensures
            r == self.items().len(),
    {
        self.data.len() + self.overflow.len()
    }

    pub fn is_empty(&self) -> (r: bool)
        requires
            self.wf(),
        ensures
            r == (self.items().len() == 0),
    {
        self.data.len() == 0 && self.overflow.len() == 0
    }

    /// A copy of the set, element for element.
    pub fn duplicate(&self) -> (r: Self)
        requires
            self.wf(),
        ensures
            r.wf(),
            r.items() == self.items(),
    {
        let mut data: Vec<T> = Vec::new();
        let mut i: usize = 0;
        while i < self.data.len()
            invariant
                i <= self.data@.len(),
                data@ == self.data@.subrange(0, i as int),
            decreases self.data@.len() - i,
        {
            data.push(self.data[i].copy_item());
            assert(data@ =~= self.data@.subrange(0, i as int + 1));
            i = i + 1;
        }
        let mut overflow: Vec<T> = Vec::new();
        let mut j: usize = 0;
        while j < self.overflow.len()
            invariant
                j <= self.overflow@.len(),
                overflow@ == self.overflow@.subrange(0, j as int),
            decreases self.overflow@.len() - j,
        {
            overflow.push(self.overflow[j].copy_item());
            assert(overflow@ =~= self.overflow@.subrange(0, j as int + 1));
            j = j + 1;
        }
        assert(data@ =~= self.data@);
        assert(overflow@ =~= self.overflow@);
        UnsortedSet { data, overflow }
    }

    /// The elements, fast array first, as copies.
    pub fn iter(&self) -> (r: Vec<T>)
        ensures
            r@ == self.items(),
    {
        let mut r: Vec<T> = Vec::new();
        let mut i: usize = 0;
        while i < self.data.len()
            invariant
                i <= self.data@.len(),
                r@ == self.data@.subrange(0, i as int),
            decreases self.data@.len() - i,
        {
            r.push(self.data[i].copy_item());
            assert(r@ =~= self.data@.subrange(0, i as int + 1));
            i = i + 1;
        }
        let mut j: usize = 0;
        while j < self.overflow.len()
            invariant
                j <= self.overflow@.len(),
                r@ == self.data@ + self.overflow@.subrange(0, j as int),
            decreases self.overflow@.len() - j,
        {
            r.push(self.overflow[j].copy_item());
            assert(r@ =~= self.data@ + self.overflow@.subrange(0, j as int + 1));
            j = j + 1;
        }
        assert(self.overflow@.subrange(0, j as int) =~= self.overflow@);
        r
    }

    /// The elements, fast array first.
    pub fn into_iter(self) -> (r: Vec<T>)
        ensures
            r@ == self.items(),
    {
        let mut data = self.data;
        let mut overflow = self.overflow;
        data.append(&mut overflow);
        data
    }

    /// Sets every element of `other`: an element of this set with the same
    /// key is replaced by the element of `other`.
    pub fn merge_with<const M: usize>(&mut self, other: UnsortedSet<T, M>)
        requires
            old(self).wf(),
            other.wf(),
        ensures
            final(self).wf(),
            forall|x: T| #[trigger] final(self).items().contains(x) <==> (other.items().contains(x)
                || (old(self).items().contains(x) && !other.contains_key(x.key()))),
    {
        let ghost o = other.items();
        proof { other.lemma_items_distinct(); }
        let items = other.into_iter();
        let mut i: usize = 0;
        while i < items.len()
            invariant
                self.wf(),
                items@ == o,
                keys_distinct(o),
                i <= o.len(),
                forall|x: T| #[trigger] self.items().contains(x) <==> (o.subrange(0, i as int).contains(x)
                    || (old(self).items().contains(x) && !has_key(o.subrange(0, i as int), x.key()))),
            decreases o.len() - i,
        {
            let ghost p = o.subrange(0, i as int);
            let ghost q = o.subrange(0, i as int + 1);
            let ghost y = o[i as int];
            let ghost before = self.items();
            assert(q =~= p.push(y));
            let removed = self.remove(&items[i]);
            let ghost mid = self.items();
            let _ = self.insert(items[i].copy_item());
            proof {
                self.lemma_items_distinct();
                lemma_replace(before, mid, self.items(), y, removed);
                lemma_contains_after_push(p, y);
                assert forall|x: T| #[trigger] self.items().contains(x) <==> (q.contains(x)
                    || (old(self).items().contains(x) && !has_key(q, x.key()))) by {
                    lemma_has_key_push(p, y, x.key());
                    if p.contains(x) {
                        let m = choose|m: int| 0 <= m < p.len() && p[m] == x;
                        assert(o[m] == x);
                        assert(x.key() != y.key());
                    }
                }
            }
            i = i + 1;
        }
        assert(o.subrange(0, o.len() as int) =~= o);
    }
}

} // verus!
