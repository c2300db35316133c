use vstd::prelude::*;

use crate::model::{back_step, back_value, front_step, front_value, Model};
use crate::producer::Producer;

verus! {

/// How one front pull moves the remaining and produced sequences along,
/// stated over the sequences alone: passing the element at index `i`
/// shifts a `skip` boundary by one and appends that element to a `take`
/// prefix.
proof fn lemma_front_pull_shift<A>(s: Seq<A>, p: Seq<A>, i: int)
    ensures
        0 <= i < s.len() ==> {
            &&& s.skip(i).skip(1) =~= s.skip(i + 1)
            &&& (p + s.take(i)).push(s[i]) =~= p + s.take(i + 1)
            &&& s.skip(i)[0] == s[i]
        },
        s.take(s.len() as int) =~= s,
{
}

/// How one back pull moves the remaining sequence along, stated over the
/// sequence alone: taking the element at index `k - 1` shrinks a `take`
/// prefix by one from its end.
proof fn lemma_back_pull_shift<A>(s: Seq<A>, k: int)
    ensures
        0 < k <= s.len() ==> {
            &&& s.take(k).drop_last() =~= s.take(k - 1)
            &&& s.take(k).last() == s[k - 1]
        },
        s.take(s.len() as int) =~= s,
{
}

/// `folds(f, acc, s, r)` says that `r` is an outcome of combining the
/// elements of `s`, left to right, into the accumulator `acc` with `f`:
/// there is a chain of intermediate accumulator values, each a possible
/// result of one call of `f` on the previous value and the next element,
/// that starts at `acc` and ends at `r`. When `f` computes one exact
/// result per input, the chain pins `r` down completely.
pub open spec fn folds<A, B, F: Fn(B, A) -> B>(f: F, acc: B, s: Seq<A>, r: B) -> bool
    decreases s.len(),
{
    if s.len() == 0 {
        r == acc
    } else {
        exists|mid: B|
            #[trigger] call_ensures(f, (acc, s[0]), mid) && folds(f, mid, s.skip(1), r)
    }
}

/// When every outcome of `f(b, a)` equals `g(b, a)` for some spec
/// function `g` — that is, when `f` computes one exact result per input —
/// a fold chain pins its result down completely: it is the mathematical
/// left fold of `g` over the sequence.
pub proof fn lemma_folds_deterministic<A, B, F: Fn(B, A) -> B>(
    f: F,
    init: B,
    s: Seq<A>,
    r: B,
    g: spec_fn(B, A) -> B,
)
    requires
        folds(f, init, s, r),
        forall|b: B, a: A, y: B| call_ensures(f, (b, a), y) ==> y == g(b, a),
    ensures
        r == s.fold_left(init, g),
    decreases s.len(),
{
    s.lemma_fold_left_alt(init, g);
    if s.len() > 0 {
        let mid = choose|mid: B| #[trigger] call_ensures(f, (init, s[0]), mid) && folds(f, mid, s.skip(1), r);
        lemma_folds_deterministic(f, mid, s.skip(1), r, g);
        assert(s.skip(1) =~= s.subrange(1, s.len() as int));
        s.skip(1).lemma_fold_left_alt(mid, g);
    }
}

/// Extending a fold chain over `s` by one more call of `f` on the element
/// `x` gives a fold chain over `s.push(x)`.
proof fn lemma_folds_snoc<A, B, F: Fn(B, A) -> B>(f: F, init: B, s: Seq<A>, acc: B, x: A, acc2: B)
    requires
        folds(f, init, s, acc),
        call_ensures(f, (acc, x), acc2),
    ensures
        folds(f, init, s.push(x), acc2),
    decreases s.len(),
{
    if s.len() == 0 {
        assert(s.push(x).skip(1) =~= Seq::<A>::empty());
        assert(call_ensures(f, (init, s.push(x)[0]), acc2) && folds(f, acc2, s.push(x).skip(1), acc2));
    } else {
        let mid = choose|mid: B| #[trigger] call_ensures(f, (init, s[0]), mid) && folds(f, mid, s.skip(1), acc);
        lemma_folds_snoc(f, mid, s.skip(1), acc, x, acc2);
        assert(s.push(x).skip(1) =~= s.skip(1).push(x));
        assert(call_ensures(f, (init, s.push(x)[0]), mid) && folds(f, mid, s.push(x).skip(1), acc2));
    }
}

/// The two mutually exclusive representations of the adapter.
#[derive(Clone)]
enum Repr<I: Producer> {
    /// The wrapped producer, not yet materialized: no element beyond the
    /// ones already delivered has been produced.
    Lazy(I),
    /// The remaining elements, fully buffered in forward order; the
    /// producer is gone and no production step can run again.
    Materialized(Vec<I::Item>),
}

/// An adapter around a producer that keeps the producer's side effects in
/// forward order even when elements are pulled from the tail end.
///
/// While only front pulls occur the adapter stays lazy and adds no
/// buffering: each front pull runs exactly one production step. The first
/// tail-directed call triggers a one-time, irreversible transition: every
/// remaining production step runs once, in forward order, and the elements
/// are buffered; both ends then consume the buffer without ever running a
/// production step again.
///
/// Create one with [`ForwardIterExt::forward`].
#[must_use]
#[derive(Clone)]
pub struct ForwardIter<I: Producer> {
    repr: Repr<I>,
    /// The side-effect record once the producer has been materialized.
    history: Ghost<Seq<I::Item>>,
}

impl<I: Producer> ForwardIter<I> {
    /// The elements the adapter will still deliver, in forward order.
    pub closed spec fn remaining(&self) -> Seq<I::Item> {
        match self.repr {
            Repr::Lazy(p) => p.remaining(),
            Repr::Materialized(buf) => buf@,
        }
    }

    /// The side-effect record: every element whose production step has
    /// run, in the order the steps ran.
    pub closed spec fn produced(&self) -> Seq<I::Item> {
        match self.repr {
            Repr::Lazy(p) => p.produced(),
            Repr::Materialized(_) => self.history@,
        }
    }

    /// Whether the producer has not yet been materialized.
    pub closed spec fn is_lazy(&self) -> bool {
        self.repr is Lazy
    }

    /// Whether the adapter knows its exact remaining length: while lazy
    /// this is the wrapped producer's own capability, passed through
    /// unchanged; once materialized it always holds.
    pub closed spec fn len_exact(&self) -> bool {
        match self.repr {
            Repr::Lazy(p) => p.len_exact(),
            Repr::Materialized(_) => true,
        }
    }

    /// The adapter's ghost state, in the terms of [`crate::model`].
    pub open spec fn model(&self) -> Model<I::Item> {
        Model {
            produced: self.produced(),
            remaining: self.remaining(),
            lazy: self.is_lazy(),
        }
    }

    /// Materialize the producer if the adapter is still lazy: run every
    /// remaining production step once, in forward order, and buffer the
    /// elements. Once materialized, the adapter never becomes lazy again
    /// and no production step ever runs again.
    pub fn backward(&mut self)
        ensures
            !final(self).is_lazy(),
            final(self).len_exact(),
            final(self).remaining() == old(self).remaining(),
            old(self).is_lazy() ==> final(self).produced() == old(self).produced()
                + old(self).remaining(),
            !old(self).is_lazy() ==> final(self).produced() == old(self).produced(),
    {
        let mut taken = Repr::Materialized(Vec::new());
        core::mem::swap(&mut taken, &mut self.repr);
        match taken {
            Repr::Lazy(mut producer) => {
                let ghost start_produced = producer.produced();
                let ghost start_remaining = producer.remaining();
                let mut buf: Vec<I::Item> = Vec::new();
                loop
                    invariant
                        producer.produced() == start_produced + buf@,
                        start_remaining == buf@ + producer.remaining(),
                    ensures
                        producer.produced() == start_produced + buf@,
                        buf@ == start_remaining,
                    decreases producer.remaining().len(),
                {
                    match producer.next() {
                        Some(x) => {
                            buf.push(x);
                            proof {
                                assert(start_remaining =~= buf@ + producer.remaining());
                            }
                        },
                        None => {
                            proof {
                                assert(buf@ =~= start_remaining);
                            }
                            break ;
                        },
                    }
                }
                self.history = Ghost(start_produced + buf@);
                self.repr = Repr::Materialized(buf);
            },
            Repr::Materialized(buf) => {
                self.repr = Repr::Materialized(buf);
            },
        }
    }

    /// Pull one element from the front. While lazy this runs exactly one
    /// production step; once materialized it pops the buffer's front.
    /// Returns the end-of-sequence sentinel once exhausted, and then keeps
    /// returning it.
    pub fn next(&mut self) -> (r: Option<I::Item>)
        ensures
            r == front_value(old(self).model()),
            final(self).model() == front_step(old(self).model()),
            final(self).len_exact() == old(self).len_exact(),
    {
        let r = match &mut self.repr {
            Repr::Lazy(p) => p.next(),
            Repr::Materialized(buf) => {
                if buf.len() > 0 {
                    Some(buf.remove(0))
                } else {
                    None
                }
            },
        };
        proof {
            if old(self).remaining().len() > 0 {
                assert(self.remaining() =~= old(self).remaining().skip(1));
            }
            assert(final(self).model() =~~= front_step(old(self).model()));
        }
        r
    }

    /// Skip `n` elements from the front and pull the one after them. This
    /// behaves exactly as `n + 1` single front pulls: while lazy, one
    /// production step runs per element passed over, in forward order. If
    /// fewer than `n + 1` elements remain, everything is consumed and the
    /// end-of-sequence sentinel is returned.
    pub fn nth(&mut self, n: usize) -> (r: Option<I::Item>)
        ensures
            final(self).is_lazy() == old(self).is_lazy(),
            final(self).len_exact() == old(self).len_exact(),
            old(self).remaining().len() > n ==> {
                &&& r == Some(old(self).remaining()[n as int])
                &&& final(self).remaining() == old(self).remaining().skip(n + 1)
                &&& old(self).is_lazy() ==> final(self).produced() == old(self).produced()
                    + old(self).remaining().take(n + 1)
            },
            old(self).remaining().len() <= n ==> {
                &&& r is None
                &&& final(self).remaining().len() == 0
                &&& old(self).is_lazy() ==> final(self).produced() == old(self).produced()
                    + old(self).remaining()
            },
            !old(self).is_lazy() ==> final(self).produced() == old(self).produced(),
    {
        let ghost old_rem = self.remaining();
        let ghost old_prod = self.produced();
        let ghost old_lazy = self.is_lazy();
        let ghost old_lenx = self.len_exact();
        let mut i: usize = 0;
        while i < n
            invariant
                i <= n,
                self.is_lazy() == old_lazy,
                self.len_exact() == old_lenx,
                i as int <= old_rem.len() ==> {
                    &&& self.remaining() == old_rem.skip(i as int)
                    &&& old_lazy ==> self.produced() == old_prod + old_rem.take(i as int)
                },
                i as int > old_rem.len() ==> {
                    &&& self.remaining().len() == 0
                    &&& old_lazy ==> self.produced() == old_prod + old_rem
                },
                !old_lazy ==> self.produced() == old_prod,
            decreases n - i,
        {
            let _ = self.next();
            proof {
                lemma_front_pull_shift(old_rem, old_prod, i as int);
            }
            i = i + 1;
        }
        let r = self.next();
        proof {
            lemma_front_pull_shift(old_rem, old_prod, n as int);
        }
        r
    }

    /// A length estimate for what the adapter will still deliver: a lower
    /// bound, and an upper bound where one is known. While lazy this is
    /// whatever the wrapped producer reports, with the producer's own
    /// guarantees passed through — in particular an exact report stays
    /// exact; once materialized both bounds are the exact remaining count.
    pub fn size_hint(&self) -> (r: (usize, Option<usize>))
        ensures
            r.0 <= self.remaining().len(),
            r.1 is Some ==> self.remaining().len() <= r.1->0,
            self.len_exact() ==> r.0 == self.remaining().len() && r.1 == Some(r.0),
            !self.is_lazy() ==> r.0 == self.remaining().len() && r.1 == Some(r.0),
    {
        match &self.repr {
            Repr::Lazy(p) => p.size_hint(),
            Repr::Materialized(buf) => (buf.len(), Some(buf.len())),
        }
    }

    /// Pull one element from the tail. If the adapter is still lazy this
    /// first materializes it, so every remaining production step runs in
    /// forward order before the tail element is handed out. Returns the
    /// end-of-sequence sentinel once exhausted, and then keeps returning
    /// it.
    pub fn next_back(&mut self) -> (r: Option<I::Item>)
        ensures
            r == back_value(old(self).model()),
            final(self).model() == back_step(old(self).model()),
            final(self).len_exact(),
    {
        self.backward();
        let r = match &mut self.repr {
            Repr::Lazy(_) => {
                proof {
                    assert(false);
                }
                None
            },
            Repr::Materialized(buf) => buf.pop(),
        };
        proof {
            if old(self).remaining().len() > 0 {
                assert(self.remaining() =~= old(self).remaining().drop_last());
            }
            assert(final(self).model() =~~= back_step(old(self).model()));
        }
        r
    }

    /// Skip `n` elements from the tail and pull the one before them. This
    /// behaves exactly as `n + 1` single back pulls: it first materializes
    /// a lazy adapter, so every remaining production step runs in forward
    /// order before anything is handed out. If fewer than `n + 1` elements
    /// remain, everything is consumed and the end-of-sequence sentinel is
    /// returned.
    pub fn nth_back(&mut self, n: usize) -> (r: Option<I::Item>)
        ensures
            !final(self).is_lazy(),
            final(self).len_exact(),
            old(self).is_lazy() ==> final(self).produced() == old(self).produced()
                + old(self).remaining(),
            !old(self).is_lazy() ==> final(self).produced() == old(self).produced(),
            old(self).remaining().len() > n ==> {
                &&& r == Some(old(self).remaining()[old(self).remaining().len() - 1 - n])
                &&& final(self).remaining() == old(self).remaining().take(
                    old(self).remaining().len() - n - 1,
                )
            },
            old(self).remaining().len() <= n ==> {
                &&& r is None
                &&& final(self).remaining().len() == 0
            },
    {
        let ghost old_rem = self.remaining();
        self.backward();
        let ghost prod = self.produced();
        proof {
            assert(old_rem.take(old_rem.len() as int) =~= old_rem);
        }
        let mut i: usize = 0;
        while i < n
            invariant
                i <= n,
                !self.is_lazy(),
                self.produced() == prod,
                i as int <= old_rem.len() ==> self.remaining() == old_rem.take(
                    old_rem.len() - i as int,
                ),
                i as int > old_rem.len() ==> self.remaining().len() == 0,
            decreases n - i,
        {
            let _ = self.next_back();
            proof {
                lemma_back_pull_shift(old_rem, old_rem.len() - i as int);
            }
            i = i + 1;
        }
        let r = self.next_back();
        proof {
            lemma_back_pull_shift(old_rem, old_rem.len() - n as int);
        }
        r
    }

    /// Consume the whole adapter from the front, combining every element
    /// into the accumulator with `f`, and return the final accumulator.
    /// The elements are combined in forward order, and while lazy each
    /// production step runs just before its element is combined, so the
    /// side effects run in forward order too. Afterwards the adapter is
    /// exhausted.
    pub fn fold<B, F: Fn(B, I::Item) -> B>(&mut self, init: B, f: F) -> (r: B)
        requires
            forall|i: int, b: B|
                0 <= i < old(self).remaining().len() && folds(
                    f,
                    init,
                    old(self).remaining().take(i),
                    b,
                ) ==> #[trigger] call_requires(f, (b, old(self).remaining()[i])),
        ensures
            final(self).remaining().len() == 0,
            final(self).is_lazy() == old(self).is_lazy(),
            final(self).len_exact() == old(self).len_exact(),
            old(self).is_lazy() ==> final(self).produced() == old(self).produced()
                + old(self).remaining(),
            !old(self).is_lazy() ==> final(self).produced() == old(self).produced(),
            folds(f, init, old(self).remaining(), r),
    {
        let ghost old_rem = self.remaining();
        let ghost old_prod = self.produced();
        let ghost old_lazy = self.is_lazy();
        let ghost old_lenx = self.len_exact();
        let mut acc = init;
        let ghost mut consumed: Seq<I::Item> = Seq::empty();
        proof {
            assert(old_rem =~= consumed + self.remaining());
            assert(old_prod + consumed =~= old_prod);
        }
        loop
            invariant
                forall|i: int, b: B|
                    0 <= i < old_rem.len() && folds(f, init, old_rem.take(i), b)
                        ==> #[trigger] call_requires(f, (b, old_rem[i])),
                self.is_lazy() == old_lazy,
                self.len_exact() == old_lenx,
                old_rem == consumed + self.remaining(),
                folds(f, init, consumed, acc),
                old_lazy ==> self.produced() == old_prod + consumed,
                !old_lazy ==> self.produced() == old_prod,
            ensures
                self.remaining().len() == 0,
                self.is_lazy() == old_lazy,
                self.len_exact() == old_lenx,
                folds(f, init, old_rem, acc),
                old_lazy ==> self.produced() == old_prod + old_rem,
                !old_lazy ==> self.produced() == old_prod,
            decreases self.remaining().len(),
        {
            match self.next() {
                Some(x) => {
                    proof {
                        assert(old_rem[consumed.len() as int] == x);
                        assert(consumed =~= old_rem.take(consumed.len() as int));
                        assert(call_requires(f, (acc, old_rem[consumed.len() as int])));
                    }
                    let acc2 = f(acc, x);
                    proof {
                        lemma_folds_snoc(f, init, consumed, acc, x, acc2);
                        consumed = consumed.push(x);
                        assert(old_rem =~= consumed + self.remaining());
                        if old_lazy {
                            assert(self.produced() =~= old_prod + consumed);
                        }
                    }
                    acc = acc2;
                },
                None => {
                    proof {
                        assert(consumed =~= old_rem);
                    }
                    break ;
                },
            }
        }
        acc
    }

    /// Consume the whole adapter from the tail, combining every element
    /// into the accumulator with `f`, and return the final accumulator.
    /// The elements are combined in reverse order, but the adapter is
    /// materialized first, so every production step still runs in forward
    /// order before any element is combined. Afterwards the adapter is
    /// exhausted.
    pub fn rfold<B, F: Fn(B, I::Item) -> B>(&mut self, init: B, f: F) -> (r: B)
        requires
            forall|i: int, b: B|
                0 <= i < old(self).remaining().len() && folds(
                    f,
                    init,
                    old(self).remaining().reverse().take(i),
                    b,
                ) ==> #[trigger] call_requires(f, (b, old(self).remaining().reverse()[i])),
        ensures
            !final(self).is_lazy(),
            final(self).len_exact(),
            final(self).remaining().len() == 0,
            old(self).is_lazy() ==> final(self).produced() == old(self).produced()
                + old(self).remaining(),
            !old(self).is_lazy() ==> final(self).produced() == old(self).produced(),
            folds(f, init, old(self).remaining().reverse(), r),
    {
        let ghost old_rem = self.remaining();
        self.backward();
        let ghost prod = self.produced();
        let mut acc = init;
        let ghost mut consumed: Seq<I::Item> = Seq::empty();
        proof {
            assert(old_rem =~= self.remaining() + consumed.reverse());
        }
        loop
            invariant
                forall|i: int, b: B|
                    0 <= i < old_rem.len() && folds(f, init, old_rem.reverse().take(i), b)
                        ==> #[trigger] call_requires(f, (b, old_rem.reverse()[i])),
                !self.is_lazy(),
                self.produced() == prod,
                old_rem == self.remaining() + consumed.reverse(),
                folds(f, init, consumed, acc),
            ensures
                self.remaining().len() == 0,
                !self.is_lazy(),
                self.produced() == prod,
                folds(f, init, old_rem.reverse(), acc),
            decreases self.remaining().len(),
        {
            match self.next_back() {
                Some(x) => {
                    proof {
                        assert(old_rem[old_rem.len() - 1 - consumed.len()] == x);
                        assert(consumed =~= old_rem.reverse().take(consumed.len() as int));
                        assert(old_rem.reverse()[consumed.len() as int] == x);
                        assert(call_requires(f, (acc, old_rem.reverse()[consumed.len() as int])));
                    }
                    let acc2 = f(acc, x);
                    proof {
                        lemma_folds_snoc(f, init, consumed, acc, x, acc2);
                        consumed = consumed.push(x);
                        assert(old_rem =~= self.remaining() + consumed.reverse());
                    }
                    acc = acc2;
                },
                None => {
                    proof {
                        assert(consumed.reverse() =~= old_rem);
                        assert(consumed =~= old_rem.reverse());
                    }
                    break ;
                },
            }
        }
        acc
    }
}

/// Wrap a producer so that its side effects always run in forward order.
pub trait ForwardIterExt: Producer {
    /// Wrap this producer in a [`ForwardIter`].
    ///
    /// The adapter starts lazy: nothing is produced by the call itself,
    /// and nothing extra is ever buffered as long as only front pulls
    /// occur. Space cost: none until a tail-directed call, then one buffer
    /// of the elements remaining at that moment.
    fn forward(self) -> (r: ForwardIter<Self>)
        ensures
            r.is_lazy(),
            r.remaining() == self.remaining(),
            r.produced() == self.produced(),
            r.len_exact() == self.len_exact(),
    ;
}

impl<I: Producer> ForwardIterExt for I {
    fn forward(self) -> (r: ForwardIter<I>) {
        let ghost start_produced = self.produced();
        ForwardIter { repr: Repr::Lazy(self), history: Ghost(start_produced) }
    }
}

} // verus!
