use vstd::prelude::*;

use crate::model::{backs, back_value, fronts, front_value, run, start, step, value, Model, Pull};

verus! {

/// Relates an adapter state to the sequence `s` its producer was going to
/// yield when the adapter was fresh: `f` elements have been delivered
/// from the front and `b` from the back. In every such state the
/// side-effect record is a forward prefix of `s` — exactly the front
/// deliveries while lazy, and all of `s` once materialized — and a lazy
/// adapter has delivered nothing from the back.
pub open spec fn consistent<A>(s: Seq<A>, f: int, b: int, m: Model<A>) -> bool {
    &&& 0 <= f
    &&& 0 <= b
    &&& f + b <= s.len()
    &&& m.remaining == s.subrange(f, s.len() - b)
    &&& m.produced == (if m.lazy {
        s.take(f)
    } else {
        s
    })
    &&& (m.lazy ==> b == 0)
}

/// A fresh adapter over `s` has delivered nothing from either end.
pub proof fn lemma_start_consistent<A>(s: Seq<A>)
    ensures
        consistent(s, 0, 0, start(s)),
{
    assert(s.subrange(0, s.len() as int) =~= s);
    assert(s.take(0) =~= Seq::<A>::empty());
}

/// One pull, in either direction, keeps the adapter consistent with `s`:
/// a front pull on a non-exhausted adapter delivers `s[f]`, a back pull
/// delivers `s[s.len() - b - 1]`, and a pull on an exhausted adapter
/// delivers the sentinel and changes no side effect.
pub proof fn lemma_step_consistent<A>(s: Seq<A>, f: int, b: int, m: Model<A>, p: Pull)
    requires
        consistent(s, f, b, m),
    ensures
        m.remaining.len() == 0 ==> {
            &&& consistent(s, f, b, step(m, p))
            &&& value(m, p) is None
            &&& step(m, p).produced == m.produced
        },
        m.remaining.len() > 0 && p is Front ==> {
            &&& consistent(s, f + 1, b, step(m, p))
            &&& value(m, p) == Some(s[f])
        },
        m.remaining.len() > 0 && p is Back ==> {
            &&& consistent(s, f, b + 1, step(m, p))
            &&& value(m, p) == Some(s[s.len() - b - 1])
        },
{
    if m.remaining.len() == 0 {
        match p {
            Pull::Front => {},
            Pull::Back => {
                if m.lazy {
                    assert(f == s.len());
                    assert(s.take(f) + m.remaining =~= s);
                }
            },
        }
    } else {
        match p {
            Pull::Front => {
                assert(m.remaining[0] == s[f]);
                assert(m.remaining.skip(1) =~= s.subrange(f + 1, s.len() - b));
                if m.lazy {
                    assert(s.take(f).push(s[f]) =~= s.take(f + 1));
                }
            },
            Pull::Back => {
                assert(m.remaining.last() == s[s.len() - b - 1]);
                assert(m.remaining.drop_last() =~= s.subrange(f, s.len() - (b + 1)));
                if m.lazy {
                    assert(s.take(f) + m.remaining =~= s);
                }
            },
        }
    }
}

/// Any run of pulls keeps the adapter consistent with `s`, the front
/// pulls together deliver a contiguous piece of `s` taken in forward
/// order from index `f` on, and the back pulls together deliver a
/// contiguous piece of `s` taken in backward order from index
/// `s.len() - b - 1` down.
pub proof fn lemma_run_consistent<A>(s: Seq<A>, f: int, b: int, m: Model<A>, ops: Seq<Pull>)
    requires
        consistent(s, f, b, m),
    ensures
        ({
            let fv = fronts(m, ops);
            let bv = backs(m, ops);
            &&& consistent(s, f + fv.len(), b + bv.len(), run(m, ops))
            &&& fv == s.subrange(f, f + fv.len())
            &&& bv == s.subrange(s.len() - b - bv.len(), s.len() - b).reverse()
        }),
    decreases ops.len(),
{
    let fv = fronts(m, ops);
    let bv = backs(m, ops);
    if ops.len() == 0 {
        assert(fv =~= s.subrange(f, f));
        assert(bv =~= s.subrange(s.len() - b, s.len() - b).reverse());
    } else {
        let p = ops[0];
        let m1 = step(m, p);
        let rest = ops.skip(1);
        lemma_step_consistent(s, f, b, m, p);
        if m.remaining.len() == 0 {
            lemma_run_consistent(s, f, b, m1, rest);
            assert(fv == fronts(m1, rest));
            assert(bv == backs(m1, rest));
        } else {
            match p {
                Pull::Front => {
                    lemma_run_consistent(s, f + 1, b, m1, rest);
                    assert(fv == seq![m.remaining[0]] + fronts(m1, rest));
                    assert(m.remaining[0] == s[f]);
                    assert(seq![s[f]] + s.subrange(f + 1, f + 1 + fronts(m1, rest).len())
                        =~= s.subrange(f, f + fv.len()));
                    assert(bv == backs(m1, rest));
                },
                Pull::Back => {
                    lemma_run_consistent(s, f, b + 1, m1, rest);
                    assert(bv == seq![m.remaining.last()] + backs(m1, rest));
                    assert(m.remaining.last() == s[s.len() - b - 1]);
                    let br: int = backs(m1, rest).len() as int;
                    assert(seq![s[s.len() - b - 1]]
                        + s.subrange(s.len() - (b + 1) - br, s.len() - (b + 1)).reverse()
                        =~= s.subrange(s.len() - b - bv.len(), s.len() - b).reverse());
                    assert(fv == fronts(m1, rest));
                },
            }
        }
    }
}

/// The transition is irreversible: once the adapter is no longer lazy,
/// no pull in either direction ever makes it lazy again.
pub proof fn lemma_materialization_is_final<A>(m: Model<A>, p: Pull)
    ensures
        !m.lazy ==> !step(m, p).lazy,
{
}

/// Order preservation, one pull at a time: a pull only ever appends to
/// the side-effect record — no effect is dropped, repeated or reordered.
pub proof fn lemma_effects_append<A>(m: Model<A>, p: Pull)
    ensures
        m.produced.is_prefix_of(step(m, p).produced),
{
    match p {
        Pull::Front => {
            if m.remaining.len() > 0 && m.lazy {
                assert(m.produced.push(m.remaining[0]).take(m.produced.len() as int)
                    =~= m.produced);
            } else {
                assert(m.produced.take(m.produced.len() as int) =~= m.produced);
            }
        },
        Pull::Back => {
            if m.lazy {
                assert((m.produced + m.remaining).take(m.produced.len() as int) =~= m.produced);
            } else {
                assert(m.produced.take(m.produced.len() as int) =~= m.produced);
            }
        },
    }
}

/// Order preservation over time: across any run of pulls, the
/// side-effect record only grows — everything already produced stays in
/// place, in its order, under whatever a later pull appends.
pub proof fn lemma_effects_monotonic<A>(m: Model<A>, ops: Seq<Pull>)
    ensures
        m.produced.is_prefix_of(run(m, ops).produced),
    decreases ops.len(),
{
    if ops.len() == 0 {
        assert(m.produced =~= run(m, ops).produced.subrange(0, m.produced.len() as int));
    } else {
        let m1 = step(m, ops[0]);
        lemma_effects_append(m, ops[0]);
        lemma_effects_monotonic(m1, ops.skip(1));
        assert(m.produced =~= run(m, ops).produced.subrange(0, m.produced.len() as int));
    }
}

/// Order preservation over a whole run: whatever interleaving of front
/// and back pulls is made on a fresh adapter over `s`, the side effects
/// that have run are exactly the production steps of a forward prefix of
/// `s`, in forward order — each step at most once, never out of order.
pub proof fn lemma_effects_forward<A>(s: Seq<A>, ops: Seq<Pull>)
    ensures
        ({
            let m = run(start(s), ops);
            m.produced == s.take(m.produced.len() as int)
        }),
{
    lemma_start_consistent(s);
    lemma_run_consistent(s, 0, 0, start(s), ops);
    let m = run(start(s), ops);
    if !m.lazy {
        assert(s.take(s.len() as int) =~= s);
    }
}

/// Completeness: once a run of pulls has exhausted a fresh adapter over
/// `s`, the front deliveries followed by the back deliveries in reverse
/// are exactly `s` — every element was delivered exactly once, with no
/// duplicate and no omission.
pub proof fn lemma_completeness<A>(s: Seq<A>, ops: Seq<Pull>)
    requires
        run(start(s), ops).remaining.len() == 0,
    ensures
        fronts(start(s), ops).len() + backs(start(s), ops).len() == s.len(),
        fronts(start(s), ops) + backs(start(s), ops).reverse() == s,
{
    lemma_start_consistent(s);
    lemma_run_consistent(s, 0, 0, start(s), ops);
    let fv = fronts(start(s), ops);
    let bv = backs(start(s), ops);
    assert(s.subrange(fv.len() as int, s.len() - bv.len()).len() == 0);
    let tail = s.subrange(s.len() - bv.len(), s.len() as int);
    assert(tail.reverse().reverse() =~= tail);
    assert(fv + bv.reverse() =~= s);
}

/// A run made of front pulls alone delivers nothing from the back and
/// leaves the adapter lazy.
proof fn lemma_all_front_stays_lazy<A>(m: Model<A>, ops: Seq<Pull>)
    requires
        forall|i: int| 0 <= i < ops.len() ==> ops[i] is Front,
    ensures
        backs(m, ops) == Seq::<A>::empty(),
        run(m, ops).lazy == m.lazy,
    decreases ops.len(),
{
    if ops.len() > 0 {
        assert(ops[0] is Front);
        lemma_all_front_stays_lazy(step(m, ops[0]), ops.skip(1));
    }
}

/// A run made of back pulls alone delivers nothing from the front.
proof fn lemma_all_back_no_fronts<A>(m: Model<A>, ops: Seq<Pull>)
    requires
        forall|i: int| 0 <= i < ops.len() ==> ops[i] is Back,
    ensures
        fronts(m, ops) == Seq::<A>::empty(),
    decreases ops.len(),
{
    if ops.len() > 0 {
        assert(ops[0] is Back);
        lemma_all_back_no_fronts(step(m, ops[0]), ops.skip(1));
    }
}

/// As many pulls as there are remaining elements exhaust the adapter,
/// whatever their directions.
proof fn lemma_enough_pulls_drain<A>(m: Model<A>, ops: Seq<Pull>)
    requires
        ops.len() >= m.remaining.len(),
    ensures
        run(m, ops).remaining.len() == 0,
    decreases ops.len(),
{
    if ops.len() > 0 {
        lemma_enough_pulls_drain(step(m, ops[0]), ops.skip(1));
    }
}

/// Forward-only equivalence: consuming a fresh adapter over `s` purely
/// with front pulls, at least as many as `s` has elements, yields exactly
/// `s`, in the same order the producer itself would have yielded it, and
/// runs exactly the side effects of `s`, in forward order.
pub proof fn lemma_forward_only<A>(s: Seq<A>, ops: Seq<Pull>)
    requires
        forall|i: int| 0 <= i < ops.len() ==> ops[i] is Front,
        ops.len() >= s.len(),
    ensures
        fronts(start(s), ops) == s,
        run(start(s), ops).produced == s,
{
    lemma_start_consistent(s);
    lemma_run_consistent(s, 0, 0, start(s), ops);
    lemma_all_front_stays_lazy(start(s), ops);
    lemma_enough_pulls_drain(start(s), ops);
    let fv = fronts(start(s), ops);
    assert(s.subrange(fv.len() as int, s.len() as int).len() == 0);
    assert(s.subrange(0, s.len() as int) =~= s);
    assert(s.take(s.len() as int) =~= s);
}

/// Reverse-only equivalence: consuming a fresh adapter over `s` purely
/// with back pulls, at least as many as `s` has elements, yields exactly
/// the reverse of `s` — while the side effects that ran are still exactly
/// those of `s`, in forward order, not in reverse.
pub proof fn lemma_backward_only<A>(s: Seq<A>, ops: Seq<Pull>)
    requires
        forall|i: int| 0 <= i < ops.len() ==> ops[i] is Back,
        ops.len() >= s.len(),
    ensures
        backs(start(s), ops) == s.reverse(),
        run(start(s), ops).produced == s,
{
    lemma_start_consistent(s);
    lemma_run_consistent(s, 0, 0, start(s), ops);
    lemma_all_back_no_fronts(start(s), ops);
    lemma_enough_pulls_drain(start(s), ops);
    let bv = backs(start(s), ops);
    assert(s.subrange(0, s.len() - bv.len()).len() == 0);
    assert(s.subrange(s.len() - bv.len(), s.len() as int) =~= s);
    let m = run(start(s), ops);
    if m.lazy {
        assert(m.produced =~= s);
    } else {
        assert(s.take(s.len() as int) =~= s);
    }
}

/// Zero-length boundary: a fresh adapter over an empty sequence delivers
/// the end-of-sequence sentinel at once from either end, and no pull ever
/// runs a side effect.
pub proof fn lemma_empty_producer<A>(s: Seq<A>, p: Pull)
    requires
        s.len() == 0,
    ensures
        front_value(start(s)) is None,
        back_value(start(s)) is None,
        step(start(s), p).produced == Seq::<A>::empty(),
        step(start(s), p).remaining.len() == 0,
{
    if start(s).lazy {
        assert(Seq::<A>::empty() + s =~= Seq::<A>::empty());
    }
}

/// Exhaustion stability: once the adapter is exhausted, every further
/// pull on either end returns the sentinel, leaves it exhausted, and runs
/// no further side effect.
pub proof fn lemma_exhaustion_stable<A>(m: Model<A>, p: Pull)
    requires
        m.remaining.len() == 0,
    ensures
        value(m, p) is None,
        step(m, p).remaining.len() == 0,
        step(m, p).produced == m.produced,
{
    match p {
        Pull::Front => {},
        Pull::Back => {
            if m.lazy {
                assert(m.produced + m.remaining =~= m.produced);
            }
        },
    }
}

} // verus!
