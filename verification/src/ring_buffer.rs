//! A bounded first-in first-out history: once `capacity` values are held,
//! every further push evicts the oldest one.

use std::collections::vec_deque::Iter;
use std::collections::vec_deque::IterMut;
use std::collections::VecDeque;
use vstd::prelude::*;
use vstd::std_specs::iter::IteratorSpec;

verus! {

/// What a buffer of capacity `cap` holding `s` (oldest first) holds after `val` is pushed.
pub open spec fn pushed<T>(s: Seq<T>, cap: nat, val: T) -> Seq<T> {
    if cap == 0 {
        s
    } else if s.len() < cap {
        s.push(val)
    } else {
        s.subrange(1, s.len() as int).push(val)
    }
}

/// The value that leaves a buffer of capacity `cap` holding `s` when `val` is pushed.
pub open spec fn evicted<T>(s: Seq<T>, cap: nat, val: T) -> Option<T> {
    if cap == 0 {
        Some(val)
    } else if s.len() < cap {
        None
    } else {
        Some(s[0])
    }
}

/// The iterator that `VecDeque::iter_mut` returns.
#[verifier::external_type_specification]
#[verifier::external_body]
#[verifier::reject_recursive_types(T)]
pub struct ExIterMut<'a, T: 'a>(IterMut<'a, T>);

/// `VecDeque::back_mut`: the last element, lent out for change, or nothing
/// when the deque is empty. No other element changes.
#[verifier::external_body]
fn back_mut_of<T>(d: &mut VecDeque<T>) -> (r: Option<&mut T>)
    ensures
        old(d)@.len() == 0 ==> r.is_none() && final(d)@ == old(d)@,
        old(d)@.len() > 0 ==> r.is_some() && *r.unwrap() == old(d)@.last()
            && final(d)@ == old(d)@.update(old(d)@.len() - 1, *final(r.unwrap())),
{
    d.back_mut()
}

/// A buffer that retains the latest `capacity` values pushed into it.
#[derive(Clone)]
pub struct RingBuffer<T> {
    data: VecDeque<T>,
    capacity: usize,
}

impl<T> View for RingBuffer<T> {
    type V = Seq<T>;

    /// The values held, oldest first.
    closed spec fn view(&self) -> Seq<T> {
        self.data@
    }
}

impl<T> RingBuffer<T> {
    /// The largest number of values the buffer retains.
    pub closed spec fn cap(&self) -> nat {
        self.capacity as nat
    }

    /// A buffer never holds more than its capacity.
    pub open spec fn wf(&self) -> bool {
        self@.len() <= self.cap()
    }

    pub fn with_capacity(capacity: usize) -> (r: Self)
        ensures
            r.wf(),
            r@ == Seq::<T>::empty(),
            r.cap() == capacity,
    {
        Self { data: VecDeque::new(), capacity }
    }

    /// Appends `val` as the newest value. A full buffer first gives up its
    /// oldest value, which is returned; a buffer of capacity zero hands `val`
    /// straight back.
    pub fn push(&mut self, val: T) -> (r: Option<T>)
        requires
            old(self).wf(),
        ensures
            final(self).wf(),
            final(self)@ == pushed(old(self)@, old(self).cap(), val),
            r == evicted(old(self)@, old(self).cap(), val),
            final(self).cap() == old(self).cap(),
    {
        if self.capacity == 0 {
            return Some(val);
        }
        if self.data.len() < self.capacity {
            self.data.push_back(val);
            None
        } else {
            let out = self.data.pop_front();
            self.data.push_back(val);
            out
        }
    }

    /// Removes and returns the newest value.
    pub fn pop(&mut self) -> (r: Option<T>)
        requires
            old(self).wf(),
        ensures
            final(self).wf(),
            final(self).cap() == old(self).cap(),
            old(self)@.len() == 0 ==> r.is_none() && final(self)@ == old(self)@,
            old(self)@.len() > 0 ==> r == Some(old(self)@.last())
                && final(self)@ == old(self)@.drop_last(),
    {
        self.data.pop_back()
    }

    /// The newest value.
    pub fn peak(&self) -> (r: Option<&T>)
        ensures
            self@.len() == 0 ==> r.is_none(),
            self@.len() > 0 ==> r == Some(&self@.last()),
    {
        let n = self.data.len();
        if n == 0 {
            None
        } else {
            Some(&self.data[n - 1])
        }
    }

    /// The newest value, lent out for change.
    pub fn peak_mut(&mut self) -> (r: Option<&mut T>)
        requires
            old(self).wf(),
        ensures
            final(self).wf(),
            final(self).cap() == old(self).cap(),
            old(self)@.len() == 0 ==> r.is_none() && final(self)@ == old(self)@,
            old(self)@.len() > 0 ==> r.is_some() && *r.unwrap() == old(self)@.last()
                && final(self)@ == old(self)@.update(old(self)@.len() - 1, *final(r.unwrap())),
    {
        back_mut_of(&mut self.data)
    }

    /// The values from the oldest to the newest.
    pub fn iter(&self) -> (it: Iter<'_, T>)
        ensures
            it.obeys_prophetic_iter_laws(),
            it.remaining() == self@.as_ref(),
    {
        proof {
            vstd::std_specs::vecdeque::axiom_spec_iter(&self.data);
        }
        self.data.iter()
    }

    /// `VecDeque::iter_mut`: the values from the oldest to the newest, each
    /// lent out for change. How many values are held cannot change through it.
    #[verifier::external_body]
    pub fn iter_mut(&mut self) -> (it: IterMut<'_, T>)
        requires
            old(self).wf(),
        ensures
            final(self).wf(),
            final(self).cap() == old(self).cap(),
            final(self)@.len() == old(self)@.len(),
    {
        self.data.iter_mut()
    }

    pub fn len(&self) -> (n: usize)
        ensures
            n == self@.len(),
    {
        self.data.len()
    }

    pub fn capacity(&self) -> (c: usize)
        ensures
            c == self.cap(),
    {
        self.capacity
    }

    /// The value at `index`, counted from the oldest.
    pub fn elem(&self, index: usize) -> (r: Option<&T>)
        ensures
            index >= self@.len() ==> r.is_none(),
            index < self@.len() ==> r == Some(&self@[index as int]),
    {
        if index < self.data.len() {
            Some(&self.data[index])
        } else {
            None
        }
    }
}

/// What a buffer of capacity `cap` holding `s` holds after the values of
/// `vals` are pushed one after the other.
pub open spec fn pushed_all<T>(s: Seq<T>, cap: nat, vals: Seq<T>) -> Seq<T>
    decreases vals.len(),
{
    if vals.len() == 0 {
        s
    } else {
        pushed(pushed_all(s, cap, vals.drop_last()), cap, vals.last())
    }
}

/// The last `k` values of `s`, or all of `s` where it has fewer.
pub open spec fn latest<T>(s: Seq<T>, k: nat) -> Seq<T> {
    if s.len() <= k {
        s
    } else {
        s.subrange(s.len() - k, s.len() as int)
    }
}

/// However many values are pushed, the buffer holds the latest of them: as
/// many as its capacity, counting what it held before, in the order pushed.
pub proof fn lemma_pushes_keep_the_latest<T>(s: Seq<T>, cap: nat, vals: Seq<T>)
    requires
        s.len() <= cap,
    ensures
        pushed_all(s, cap, vals) == latest(s + vals, cap),
    decreases vals.len(),
{
    if vals.len() == 0 {
        assert(s + vals =~= s);
    } else {
        let init = vals.drop_last();
        lemma_pushes_keep_the_latest(s, cap, init);
        let w = latest(s + init, cap);
        assert(s + vals =~= (s + init).push(vals.last()));
        assert(pushed(w, cap, vals.last()) =~= latest(s + vals, cap));
    }
}

/// The sum of the values of `s`.
pub open spec fn total(s: Seq<int>) -> int
    decreases s.len(),
{
    if s.len() == 0 {
        0
    } else {
        total(s.drop_last()) + s.last()
    }
}

/// Dropping the first value takes it off the sum.
proof fn lemma_total_drop_first(s: Seq<int>)
    requires
        s.len() > 0,
    ensures
        total(s.subrange(1, s.len() as int)) == total(s) - s[0],
    decreases s.len(),
{
    let t = s.subrange(1, s.len() as int);
    if s.len() == 1 {
        assert(s.drop_last() =~= Seq::<int>::empty());
        assert(t =~= Seq::<int>::empty());
        assert(total(s) == total(s.drop_last()) + s.last());
    } else {
        lemma_total_drop_first(s.drop_last());
        assert(t.drop_last() =~= s.drop_last().subrange(1, s.len() - 1));
        assert(t.last() == s.last());
        assert(s.drop_last()[0] == s[0]);
        assert(total(t) == total(t.drop_last()) + t.last());
        assert(total(s) == total(s.drop_last()) + s.last());
    }
}

/// A sum kept beside a buffer stays the sum of what the buffer holds if each
/// push adds the pushed value to it and takes the evicted value off it.
pub proof fn lemma_running_total(s: Seq<int>, cap: nat, val: int)
    requires
        s.len() <= cap,
    ensures
        total(pushed(s, cap, val)) == total(s) + val - match evicted(s, cap, val) {
            Some(out) => out,
            None => 0,
        },
{
    if cap == 0 {
    } else if s.len() < cap {
        assert(s.push(val).drop_last() =~= s);
    } else {
        let t = s.subrange(1, s.len() as int);
        lemma_total_drop_first(s);
        assert(t.push(val).drop_last() =~= t);
    }
}

} // verus!
