use vstd::prelude::*;

verus! {

/// The direction of one pull on the adapter.
pub enum Pull {
    Front,
    Back,
}

/// The ghost state of an adapter around a producer.
///
/// - `produced` is the side-effect record: every element whose production
///   step has run, in the order the steps ran.
/// - `remaining` is what the adapter will still deliver, in forward order.
/// - `lazy` says whether the producer has not yet been materialized.
pub ghost struct Model<A> {
    pub produced: Seq<A>,
    pub remaining: Seq<A>,
    pub lazy: bool,
}

/// The state of a fresh adapter around a producer that will yield `s` and
/// has produced nothing yet.
pub open spec fn start<A>(s: Seq<A>) -> Model<A> {
    Model { produced: Seq::empty(), remaining: s, lazy: true }
}

/// What a front pull returns: the first remaining element, or the
/// end-of-sequence sentinel once exhausted.
pub open spec fn front_value<A>(m: Model<A>) -> Option<A> {
    if m.remaining.len() == 0 {
        None
    } else {
        Some(m.remaining[0])
    }
}

/// How a front pull changes the state: while lazy it runs exactly one
/// production step, so exactly the delivered element is appended to the
/// side-effect record; once materialized it runs no step at all.
pub open spec fn front_step<A>(m: Model<A>) -> Model<A> {
    if m.remaining.len() == 0 {
        m
    } else {
        Model {
            produced: if m.lazy {
                m.produced.push(m.remaining[0])
            } else {
                m.produced
            },
            remaining: m.remaining.skip(1),
            lazy: m.lazy,
        }
    }
}

/// What a back pull returns: the last remaining element, or the
/// end-of-sequence sentinel once exhausted.
pub open spec fn back_value<A>(m: Model<A>) -> Option<A> {
    if m.remaining.len() == 0 {
        None
    } else {
        Some(m.remaining.last())
    }
}

/// How a back pull changes the state: a back pull on a lazy adapter first
/// materializes it, running every remaining production step in forward
/// order — the side-effect record grows by the whole remaining sequence,
/// in that order, before anything is delivered. Once materialized, no
/// further step ever runs.
pub open spec fn back_step<A>(m: Model<A>) -> Model<A> {
    Model {
        produced: if m.lazy {
            m.produced + m.remaining
        } else {
            m.produced
        },
        remaining: if m.remaining.len() == 0 {
            m.remaining
        } else {
            m.remaining.drop_last()
        },
        lazy: false,
    }
}

/// One pull in the given direction.
pub open spec fn step<A>(m: Model<A>, p: Pull) -> Model<A> {
    match p {
        Pull::Front => front_step(m),
        Pull::Back => back_step(m),
    }
}

/// The value one pull in the given direction returns.
pub open spec fn value<A>(m: Model<A>, p: Pull) -> Option<A> {
    match p {
        Pull::Front => front_value(m),
        Pull::Back => back_value(m),
    }
}

/// The state after a whole sequence of pulls.
pub open spec fn run<A>(m: Model<A>, ops: Seq<Pull>) -> Model<A>
    decreases ops.len(),
{
    if ops.len() == 0 {
        m
    } else {
        run(step(m, ops[0]), ops.skip(1))
    }
}

/// The elements the front pulls of `ops` deliver, in delivery order.
/// Pulls that hit an exhausted adapter deliver nothing.
pub open spec fn fronts<A>(m: Model<A>, ops: Seq<Pull>) -> Seq<A>
    decreases ops.len(),
{
    if ops.len() == 0 {
        Seq::empty()
    } else {
        let rest = fronts(step(m, ops[0]), ops.skip(1));
        if ops[0] is Front && m.remaining.len() > 0 {
            seq![m.remaining[0]] + rest
        } else {
            rest
        }
    }
}

/// The elements the back pulls of `ops` deliver, in delivery order.
/// Pulls that hit an exhausted adapter deliver nothing.
pub open spec fn backs<A>(m: Model<A>, ops: Seq<Pull>) -> Seq<A>
    decreases ops.len(),
{
    if ops.len() == 0 {
        Seq::empty()
    } else {
        let rest = backs(step(m, ops[0]), ops.skip(1));
        if ops[0] is Back && m.remaining.len() > 0 {
            seq![m.remaining.last()] + rest
        } else {
            rest
        }
    }
}

} // verus!
