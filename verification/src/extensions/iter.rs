//! An iterator adaptor that stops once too many items match a predicate.

use vstd::prelude::*;
use vstd::std_specs::iter::IteratorSpec;

verus! {

/// Hands out the items of an iterator until more than `limit` of them have
/// matched a predicate.
pub struct LimitCount<I, P> {
    iter: I,
    pred: P,
    limit: usize,
    count: usize,
}

/// Adds `limit_count` to every iterator.
pub trait IteratorExt: Iterator {
    /// Wraps the iterator so that it yields its items up to, and without, the
    /// one with which the matches of `pred` would exceed `limit`.
    fn limit_count<P>(self, pred: P, limit: usize) -> (adaptor: LimitCount<Self, P>) where
        Self: Sized,
        P: Fn(&Self::Item) -> bool,

        ensures
            adaptor.source() == self,
            adaptor.predicate() == pred,
            adaptor.limit() == limit,
            adaptor.count() == 0,
    ;
}

impl<I> IteratorExt for I where I: Iterator {
    fn limit_count<P>(self, pred: P, limit: usize) -> (adaptor: LimitCount<Self, P>) where
        Self: Sized,
        P: Fn(&Self::Item) -> bool,
     {
        LimitCount { iter: self, pred, limit, count: 0 }
    }
}

impl<I, P> LimitCount<I, P> where I: Iterator, P: Fn(&I::Item) -> bool {
    /// The iterator that the items are drawn from.
    pub closed spec fn source(&self) -> I {
        self.iter
    }

    /// The predicate whose matches are counted.
    pub closed spec fn predicate(&self) -> P {
        self.pred
    }

    /// The number of matches that may be handed out.
    pub closed spec fn limit(&self) -> nat {
        self.limit as nat
    }

    /// The number of matches seen so far.
    pub closed spec fn count(&self) -> nat {
        self.count as nat
    }

    /// Draws the next item. The source always moves on by one item. A match
    /// is counted, and once the count has passed the limit the item is
    /// withheld and `None` returned in its place. What the source hands out
    /// is known where it keeps the laws of iterators.
    pub fn next(&mut self) -> (item: Option<I::Item>)
        requires
            old(self).count() < usize::MAX,
            forall|x: I::Item| call_requires(old(self).predicate(), (&x,)),
        ensures
            final(self).predicate() == old(self).predicate(),
            final(self).limit() == old(self).limit(),
            final(self).source().obeys_prophetic_iter_laws() == old(
                self,
            ).source().obeys_prophetic_iter_laws(),
            old(self).source().obeys_prophetic_iter_laws() && old(self).source().remaining().len()
                == 0 ==> {
                &&& item is None
                &&& final(self).count() == old(self).count()
                &&& final(self).source().remaining() == old(self).source().remaining()
            },
            old(self).source().obeys_prophetic_iter_laws() && old(self).source().remaining().len()
                > 0 ==> {
                let head = old(self).source().remaining()[0];
                &&& final(self).source().remaining() == old(self).source().remaining().drop_first()
                &&& exists|matched: bool|
                    {
                        &&& call_ensures(old(self).predicate(), (&head,), matched)
                        &&& final(self).count() == old(self).count() + if matched {
                            1nat
                        } else {
                            0nat
                        }
                        &&& item == if matched && final(self).count() > final(self).limit() {
                            None
                        } else {
                            Some(head)
                        }
                    }
            },
    {
        if let Some(item) = self.iter.next() {
            assert(call_requires(old(self).predicate(), (&item,)));
            let matched = (self.pred)(&item);
            assert(call_ensures(old(self).predicate(), (&item,), matched));
            if matched {
                self.count += 1;
                if self.count > self.limit {
                    return None;
                }
            }
            return Some(item);
        }
        None
    }
}

} // verus!
