use vstd::prelude::*;

verus! {

/// A pull-based source of elements, consumed one step at a time.
///
/// Each call to `next` runs one production step, which may change the
/// producer's own state; that state change is the step's side effect.
/// Two ghost views describe a producer:
/// - `remaining()` is the sequence of elements it will still yield, in
///   forward order;
/// - `produced()` is the sequence of elements whose production step has
///   already run, in the order those steps ran. It is the record of the
///   side effects: a step's effect has occurred exactly when its element
///   stands in `produced()`.
///
/// A producer is exhausted once `remaining()` is empty, and then stays
/// exhausted: further calls return `None` and change nothing.
pub trait Producer: Sized {
    type Item;

    /// The elements this producer will still yield, in forward order.
    spec fn remaining(&self) -> Seq<Self::Item>;

    /// The elements whose production step (and so whose side effect) has
    /// already run, in the order the steps ran.
    spec fn produced(&self) -> Seq<Self::Item>;

    /// Whether this producer knows its exact remaining length: when this
    /// holds, `size_hint` reports exactly `remaining().len()` at both
    /// bounds, and pulling keeps the capability.
    spec fn len_exact(&self) -> bool;

    /// Run one production step: yield the next element, or `None` once
    /// exhausted. A step that yields an element appends exactly that
    /// element to `produced()`; a step on an exhausted producer changes
    /// nothing. A step never gains or loses the exact-length capability.
    fn next(&mut self) -> (r: Option<Self::Item>)
        ensures
            final(self).len_exact() == old(self).len_exact(),
            old(self).remaining().len() == 0 ==> {
                &&& r is None
                &&& final(self).remaining() == old(self).remaining()
                &&& final(self).produced() == old(self).produced()
            },
            old(self).remaining().len() > 0 ==> {
                &&& r == Some(old(self).remaining()[0])
                &&& final(self).remaining() == old(self).remaining().skip(1)
                &&& final(self).produced() == old(self).produced().push(old(self).remaining()[0])
            },
    ;

    /// A length estimate for `remaining()`: a lower bound, and an upper
    /// bound where one is known. A producer that knows nothing of its
    /// length reports `(0, None)` and makes `len_exact()` false; one whose
    /// `len_exact()` holds reports the exact remaining count at both
    /// bounds.
    fn size_hint(&self) -> (r: (usize, Option<usize>))
        ensures
            r.0 <= self.remaining().len(),
            r.1 is Some ==> self.remaining().len() <= r.1->0,
            self.len_exact() ==> r.0 == self.remaining().len() && r.1 == Some(r.0),
    ;
}

/// A producer whose production step has an observable side effect: every
/// step increments the producer's own counter and yields the new counter
/// value. Created with a limit of `n`, it yields `1, 2, ..., n`, and the
/// counter passes through `1, 2, ..., n` in that order as the steps run.
#[derive(Debug, Clone)]
pub struct CountingProducer {
    count: usize,
    limit: usize,
}

impl CountingProducer {
    pub fn new(limit: usize) -> (r: CountingProducer)
        ensures
            r.remaining() == Seq::new(limit as nat, |i: int| (i + 1) as usize),
            r.produced() == Seq::<usize>::empty(),
            r.len_exact(),
    {
        let r = CountingProducer { count: 0, limit };
        proof {
            assert(r.remaining() =~= Seq::new(limit as nat, |i: int| (i + 1) as usize));
            assert(r.produced() =~= Seq::<usize>::empty());
        }
        r
    }
}

impl Producer for CountingProducer {
    type Item = usize;

    closed spec fn remaining(&self) -> Seq<usize> {
        if self.count <= self.limit {
            Seq::new((self.limit - self.count) as nat, |i: int| (self.count + 1 + i) as usize)
        } else {
            Seq::empty()
        }
    }

    closed spec fn produced(&self) -> Seq<usize> {
        Seq::new(self.count as nat, |i: int| (i + 1) as usize)
    }

    closed spec fn len_exact(&self) -> bool {
        true
    }

    fn next(&mut self) -> (r: Option<usize>)
    {
        if self.count < self.limit {
            self.count = self.count + 1;
            proof {
                assert(self.remaining() =~= old(self).remaining().skip(1));
                assert(self.produced() =~= old(self).produced().push(old(self).remaining()[0]));
            }
            Some(self.count)
        } else {
            None
        }
    }

    fn size_hint(&self) -> (r: (usize, Option<usize>))
    {
        if self.count <= self.limit {
            let n: usize = self.limit - self.count;
            (n, Some(n))
        } else {
            (0, Some(0))
        }
    }
}

} // verus!
