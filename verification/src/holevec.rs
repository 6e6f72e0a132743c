//! A vector that keeps indices stable: removing an element leaves a hole,
//! and a later push fills the first hole again. Entities referenced by
//! index stay addressable while unrelated entries come and go.

use vstd::prelude::*;
use vstd::std_specs::cmp::PartialEqSpec;

verus! {

broadcast use vstd::seq_lib::group_seq_properties;

/// How many slots of `s` are occupied.
pub open spec fn count_some<T>(s: Seq<Option<T>>) -> nat
    decreases s.len(),
{
    if s.len() == 0 {
        0
    } else {
        count_some(s.drop_last()) + if s.last() is Some {
            1nat
        } else {
            0nat
        }
    }
}

proof fn lemma_count_some_update<T>(s: Seq<Option<T>>, i: int, v: Option<T>)
    requires
        0 <= i < s.len(),
    ensures
        count_some(s.update(i, v)) + (if s[i] is Some {
            1int
        } else {
            0int
        }) == count_some(s) + (if v is Some {
            1int
        } else {
            0int
        }),
    decreases s.len(),
{
    if i == s.len() - 1 {
        assert(s.update(i, v).drop_last() =~= s.drop_last());
        assert(s.update(i, v).last() == v);
    } else {
        lemma_count_some_update(s.drop_last(), i, v);
        assert(s.update(i, v).drop_last() =~= s.drop_last().update(i, v));
        assert(s.update(i, v).last() == s.last());
    }
}

proof fn lemma_count_some_push<T>(s: Seq<Option<T>>, v: Option<T>)
    ensures
        count_some(s.push(v)) == count_some(s) + (if v is Some {
            1nat
        } else {
            0nat
        }),
{
    assert(s.push(v).drop_last() =~= s);
    assert(s.push(v).last() == v);
}

proof fn lemma_count_some_bound<T>(s: Seq<Option<T>>)
    ensures
        count_some(s) <= s.len(),
    decreases s.len(),
{
    if s.len() > 0 {
        lemma_count_some_bound(s.drop_last());
    }
}

/// The slot store, a hint where the first hole may start, and the number of
/// occupied slots.
#[derive(Debug)]
pub struct HoleVec<T> {
    inner: Vec<Option<T>>,
    first_free: usize,
    count: usize,
}

impl<T> HoleVec<T> {
    /// The slots as they stand: `Some` where an element lives, `None` at a
    /// hole.
    pub closed spec fn slots(self) -> Seq<Option<T>> {
        self.inner@
    }

    /// Every slot below the free hint is occupied, the hint never points
    /// past the end, and the cached count equals the number of occupied
    /// slots.
    pub closed spec fn wf(self) -> bool {
        &&& self.first_free <= self.inner@.len()
        &&& forall|i: int| 0 <= i < self.first_free ==> (#[trigger] self.inner@[i]) is Some
        &&& self.count == count_some(self.inner@)
    }

    pub fn new() -> (r: HoleVec<T>)
        ensures
            r.wf(),
            r.slots().len() == 0,
    {
        HoleVec { inner: Vec::new(), first_free: 0, count: 0 }
    }

    pub fn with_capacity(capacity: usize) -> (r: HoleVec<T>)
        ensures
            r.wf(),
            r.slots().len() == 0,
    {
        HoleVec { inner: Vec::with_capacity(capacity), first_free: 0, count: 0 }
    }

    /// Stores `e` in the first hole, or appends it when there is none, and
    /// returns the index it now lives at.
    pub fn push(&mut self, e: T) -> (idx: usize)
        requires
            old(self).wf(),
        ensures
            final(self).wf(),
            idx <= old(self).slots().len(),
            forall|j: int| 0 <= j < idx ==> (#[trigger] old(self).slots()[j]) is Some,
            (if idx < old(self).slots().len() {
                old(self).slots()[idx as int] is None && final(self).slots() == old(
                    self,
                ).slots().update(idx as int, Some(e))
            } else {
                final(self).slots() == old(self).slots().push(Some(e))
            }),
    {
        while self.first_free < self.inner.len() && vstd::std_specs::vec::vec_index(
            &self.inner,
            self.first_free,
        ).is_some()
            invariant
                *self == (HoleVec { first_free: self.first_free, ..*old(self) }),
                self.first_free <= self.inner@.len(),
                forall|i: int| 0 <= i < self.first_free ==> (#[trigger] self.inner@[i]) is Some,
            decreases self.inner@.len() - self.first_free,
        {
            self.first_free = self.first_free + 1;
        }
        proof {
            lemma_count_some_bound(self.inner@);
        }
        if self.first_free >= self.inner.len() {
            proof {
                lemma_count_some_push(self.inner@, Some(e));
            }
            self.inner.push(Some(e));
            self.first_free = self.inner.len();
            self.count = self.count + 1;
            self.inner.len() - 1
        } else {
            let idx = self.first_free;
            proof {
                lemma_count_some_update(self.inner@, idx as int, Some(e));
                lemma_count_some_bound(self.inner@.update(idx as int, Some(e)));
            }
            let slot = vstd::std_specs::vec::vec_index_mut(&mut self.inner, idx);
            *slot = Some(e);
            self.first_free = idx + 1;
            self.count = self.count + 1;
            idx
        }
    }

    /// Empties the slot at `index` and returns what it held.
    pub fn remove(&mut self, index: usize) -> (r: Option<T>)
        requires
            old(self).wf(),
            index < old(self).slots().len(),
        ensures
            final(self).wf(),
            r == old(self).slots()[index as int],
            final(self).slots() == old(self).slots().update(index as int, None),
    {
        proof {
            lemma_count_some_update(self.inner@, index as int, None);
        }
        if index < self.first_free {
            self.first_free = index;
        }
        let slot = vstd::std_specs::vec::vec_index_mut(&mut self.inner, index);
        let r = slot.take();
        if r.is_some() {
            self.count = self.count - 1;
        }
        r
    }

    /// Empties every slot.
    pub fn clear(&mut self)
        ensures
            final(self).wf(),
            final(self).slots().len() == 0,
    {
        self.inner.clear();
        self.first_free = 0;
        self.count = 0;
    }

    /// How many elements are stored.
    pub fn len(&self) -> (r: usize)
        requires
            self.wf(),
        ensures
            r == count_some(self.slots()),
    {
        self.count
    }

    pub fn is_empty(&self) -> (r: bool)
        requires
            self.wf(),
        ensures
            r == (count_some(self.slots()) == 0),
    {
        self.count == 0
    }

    /// The element at `index`, or `None` at a hole or out of range.
    pub fn get(&self, index: usize) -> (r: Option<&T>)
        ensures
            match r {
                Some(v) => index < self.slots().len() && self.slots()[index as int] == Some(*v),
                None => index >= self.slots().len() || self.slots()[index as int] is None,
            },
    {
        if index < self.inner.len() {
            match vstd::std_specs::vec::vec_index(&self.inner, index) {
                Some(v) => Some(v),
                None => None,
            }
        } else {
            None
        }
    }

    /// Whether some occupied slot holds an element equal to `x`.
    pub fn contains(&self, x: &T) -> (r: bool) where T: PartialEq<T>
        ensures
            T::obeys_eq_spec() ==> r == exists|i: int|
                0 <= i < self.slots().len() && (#[trigger] self.slots()[i]) is Some
                    && x.eq_spec(&self.slots()[i].unwrap()),
    {
        let n = self.inner.len();
        for k in 0..n
            invariant
                n == self.inner@.len(),
                T::obeys_eq_spec() ==> forall|i: int|
                    0 <= i < k ==> ((#[trigger] self.inner@[i]) is Some ==> !x.eq_spec(
                        &self.inner@[i].unwrap(),
                    )),
        {
            match vstd::std_specs::vec::vec_index(&self.inner, k) {
                Some(v) => {
                    if x.eq(v) {
                        return true;
                    }
                },
                None => {},
            }
        }
        false
    }

    /// Keeps only the elements the predicate accepts; rejected elements
    /// leave holes behind, so the indices of kept elements do not move.
    pub fn retain<F: Fn(&T) -> bool>(&mut self, f: F)
        requires
            old(self).wf(),
            forall|t: &T| #[trigger] f.requires((t,)),
        ensures
            final(self).wf(),
            final(self).slots().len() == old(self).slots().len(),
            forall|i: int|
                0 <= i < old(self).slots().len() ==> match #[trigger] old(self).slots()[i] {
                    None => final(self).slots()[i] is None,
                    Some(v) => (final(self).slots()[i] == old(self).slots()[i] && f.ensures(
                        (&v,),
                        true,
                    )) || (final(self).slots()[i] is None && f.ensures((&v,), false)),
                },
    {
        let ghost s0 = self.inner@;
        let n = self.inner.len();
        for k in 0..n
            invariant
                n == self.inner@.len(),
                s0.len() == n,
                forall|t: &T| #[trigger] f.requires((t,)),
                self.first_free <= n,
                forall|i: int| 0 <= i < self.first_free ==> (#[trigger] self.inner@[i]) is Some,
                self.count == count_some(self.inner@),
                forall|i: int| k <= i < n ==> self.inner@[i] == s0[i],
                forall|i: int|
                    0 <= i < k ==> match #[trigger] s0[i] {
                        None => self.inner@[i] is None,
                        Some(v) => (self.inner@[i] == s0[i] && f.ensures((&v,), true)) || (
                        self.inner@[i] is None && f.ensures((&v,), false)),
                    },
        {
            let keep = match vstd::std_specs::vec::vec_index(&self.inner, k) {
                Some(v) => f(v),
                None => true,
            };
            if !keep {
                proof {
                    lemma_count_some_update(self.inner@, k as int, None);
                }
                if k < self.first_free {
                    self.first_free = k;
                }
                let slot = vstd::std_specs::vec::vec_index_mut(&mut self.inner, k);
                let r = slot.take();
                if r.is_some() {
                    self.count = self.count - 1;
                }
            }
        }
    }

    /// Asks the slot store to grow by at least `additional` spare slots.
    pub fn reserve(&mut self, additional: usize)
        requires
            old(self).wf(),
        ensures
            final(self).wf(),
            final(self).slots() == old(self).slots(),
    {
        self.inner.reserve(additional);
    }
}

impl<T> Default for HoleVec<T> {
    fn default() -> (r: HoleVec<T>)
        ensures
            r.wf(),
            r.slots().len() == 0,
    {
        HoleVec::new()
    }
}

} // verus!
