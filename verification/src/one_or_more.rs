//! A container that is either one shared slot or one slot per monitor.
//!
//! A block that shows the same value on every output keeps a single slot;
//! a block declared per-monitor grows to one slot per output. Reading the
//! single shared slot ignores the index, so call sites need not branch on
//! the storage layout.

use vstd::prelude::*;

use vstd::pervasive::VecAdditionalExecFns;

verus! {

#[derive(Debug)]
pub enum OneOrMore<T> {
    One(T),
    More(Vec<T>),
}

impl<T> OneOrMore<T> {
    /// The slots, in order.
    pub open spec fn spec_seq(&self) -> Seq<T> {
        match self {
            OneOrMore::One(t) => seq![*t],
            OneOrMore::More(m) => m@,
        }
    }

    /// Whether reading index `i` is meaningful: the shared slot answers to
    /// every index, a grown container only to indices below its length.
    pub open spec fn valid_index(&self, i: int) -> bool {
        match self {
            OneOrMore::One(_) => true,
            OneOrMore::More(m) => 0 <= i < m@.len(),
        }
    }

    /// The slot read at index `i`.
    pub open spec fn spec_at(&self, i: int) -> T {
        match self {
            OneOrMore::One(t) => *t,
            OneOrMore::More(m) => m@[i],
        }
    }

    /// A single shared slot holding `t`.
    pub fn one(t: T) -> (r: Self)
        ensures
            r == OneOrMore::One(t),
    {
        OneOrMore::One(t)
    }

    /// The number of slots.
    pub fn len(&self) -> (r: usize)
        ensures
            r == self.spec_seq().len(),
            r >= 1 <==> !(self matches OneOrMore::More(m) && m@.len() == 0),
    {
        match self {
            OneOrMore::One(_) => 1,
            OneOrMore::More(m) => m.len(),
        }
    }

    /// The slot at index `i`.
    pub fn at(&self, i: usize) -> (r: &T)
        requires
            self.valid_index(i as int),
        ensures
            *r == self.spec_at(i as int),
    {
        match self {
            OneOrMore::One(t) => t,
            OneOrMore::More(m) => &m[i],
        }
    }

    /// Replaces the slot read at index `i`: the shared slot if there is only
    /// one, otherwise the slot with that index.
    pub fn set(&mut self, i: usize, value: T)
        requires
            old(self).valid_index(i as int),
        ensures
            final(self).spec_seq().len() == old(self).spec_seq().len(),
            (*final(self)) is One <==> (*old(self)) is One,
            (*old(self)) is One ==> *final(self) == OneOrMore::One(value),
            (*old(self)) is More ==> final(self).spec_seq() == old(self).spec_seq().update(
                i as int,
                value,
            ),
    {
        match self {
            OneOrMore::One(t) => {
                *t = value;
            },
            OneOrMore::More(m) => {
                m.set(i, value);
            },
        }
    }

    /// An iterator over the slots.
    pub fn iter(&self) -> (r: Iter<'_, T>)
        ensures
            r.remaining() == self.spec_seq(),
    {
        match self {
            OneOrMore::One(t) => Iter::One(Some(t)),
            OneOrMore::More(m) => Iter::More(m.as_slice(), 0),
        }
    }

    /// Appends a slot, growing the shared slot into a two-slot container.
    pub fn push(&mut self, t: T)
        ensures
            final(self).spec_seq() == old(self).spec_seq().push(t),
            (*final(self)) is More,
    {
        let ghost orig = *old(self);
        let mut tmp = OneOrMore::More(Vec::new());
        core::mem::swap(self, &mut tmp);
        match tmp {
            OneOrMore::One(o) => {
                let mut v: Vec<T> = Vec::new();
                v.push(o);
                v.push(t);
                assert(v@ =~= orig.spec_seq().push(t));
                *self = OneOrMore::More(v);
            },
            OneOrMore::More(mut v) => {
                v.push(t);
                *self = OneOrMore::More(v);
            },
        }
    }
}

impl<T: Clone> OneOrMore<T> {
    /// Grows (or shrinks) to `new_len` slots, keeping the slots already
    /// present and filling new slots with copies of `fill`. A target of one
    /// slot or fewer leaves the container untouched.
    pub fn resize_with(&mut self, new_len: usize, fill: T)
        ensures
            new_len <= 1 ==> *final(self) == *old(self),
            new_len > 1 ==> {
                &&& (*final(self)) is More
                &&& final(self).spec_seq().len() == new_len
                &&& forall|i: int|
                    0 <= i < old(self).spec_seq().len() && i < new_len ==> final(self).spec_seq()[i]
                        == old(self).spec_seq()[i]
                &&& forall|i: int|
                    old(self).spec_seq().len() <= i < new_len ==> cloned::<T>(
                        fill,
                        #[trigger] final(self).spec_seq()[i],
                    )
            },
    {
        if new_len > 1 {
            let ghost orig = *old(self);
            let mut tmp = OneOrMore::More(Vec::new());
            core::mem::swap(self, &mut tmp);
            let mut v: Vec<T> = match tmp {
                OneOrMore::One(o) => {
                    let mut v: Vec<T> = Vec::new();
                    v.push(o);
                    v
                },
                OneOrMore::More(m) => m,
            };
            assert(v@ =~= orig.spec_seq());
            v.resize(new_len, fill);
            *self = OneOrMore::More(v);
        }
    }
}

/// An iterator over the slots of a [`OneOrMore`].
#[derive(Debug)]
pub enum Iter<'a, T> {
    One(Option<&'a T>),
    More(&'a [T], usize),
}

impl<'a, T> Iter<'a, T> {
    /// The slots not yet handed out.
    pub open spec fn remaining(&self) -> Seq<T> {
        match self {
            Iter::One(o) => match o {
                Option::Some(t) => seq![**t],
                Option::None => Seq::empty(),
            },
            Iter::More(s, i) => if *i <= s@.len() {
                s@.skip(*i as int)
            } else {
                Seq::empty()
            },
        }
    }

    /// The next slot, or `None` when all slots have been handed out.
    pub fn next(&mut self) -> (r: Option<&'a T>)
        ensures
            old(self).remaining().len() == 0 ==> r is None && *final(self) == *old(self),
            old(self).remaining().len() > 0 ==> {
                &&& r is Some
                &&& *r->0 == old(self).remaining()[0]
                &&& final(self).remaining() == old(self).remaining().skip(1)
            },
    {
        let ghost orig = *old(self);
        match self {
            Iter::One(o) => {
                let r = o.take();
                assert(orig.remaining().len() > 0 ==> self.remaining() =~= orig.remaining().skip(
                    1,
                ));
                r
            },
            Iter::More(s, i) => {
                if *i < s.len() {
                    let r = &s[*i];
                    *i = *i + 1;
                    assert(self.remaining() =~= orig.remaining().skip(1));
                    Some(r)
                } else {
                    assert(orig.remaining().len() == 0);
                    None
                }
            },
        }
    }
}

} // verus!
