use forward_iter::CountingProducer;
use forward_iter::ForwardIter;
use forward_iter::ForwardIterExt;

/// Pull from the back until exhaustion, collecting the delivered values
/// in delivery order.
fn drain_back(it: &mut ForwardIter<CountingProducer>) -> Vec<usize> {
    let mut out = Vec::new();
    loop {
        match it.next_back() {
            Some(v) => out.push(v),
            None => break,
        }
    }
    out
}

/// Pull from the front until exhaustion, collecting the delivered values
/// in delivery order.
fn drain_front(it: &mut ForwardIter<CountingProducer>) -> Vec<usize> {
    let mut out = Vec::new();
    loop {
        match it.next() {
            Some(v) => out.push(v),
            None => break,
        }
    }
    out
}

#[test]
fn some_next() {
    let iter = &mut CountingProducer::new(4).forward();
    assert_eq!(iter.next(), Some(1));
    let x = drain_back(iter);
    assert_eq!(x, [4, 3, 2]);
}

#[test]
fn some_next2() {
    let iter = &mut CountingProducer::new(4).forward();
    assert_eq!(iter.next(), Some(1));
    assert_eq!(iter.next_back(), Some(4));
    assert_eq!(iter.next(), Some(2));
    assert_eq!(iter.next_back(), Some(3));
    assert_eq!(iter.next(), None);
    assert_eq!(iter.next_back(), None);
}

#[test]
fn counter_scenario() {
    // A producer that increments its counter and yields the new value,
    // over 4 steps: one front pull returns 1, then three back pulls
    // return 4, 3, 2 in that order; the adapter is then exhausted.
    let mut it = CountingProducer::new(4).forward();
    assert_eq!(it.next(), Some(1));
    assert_eq!(it.next_back(), Some(4));
    assert_eq!(it.next_back(), Some(3));
    assert_eq!(it.next_back(), Some(2));
    assert_eq!(it.next_back(), None);
    assert_eq!(it.next(), None);
}

#[test]
fn forward_only_equivalence() {
    let mut it = CountingProducer::new(5).forward();
    assert_eq!(drain_front(&mut it), [1, 2, 3, 4, 5]);
}

#[test]
fn reverse_only_equivalence() {
    let mut it = CountingProducer::new(5).forward();
    assert_eq!(drain_back(&mut it), [5, 4, 3, 2, 1]);
}

#[test]
fn completeness_interleaved() {
    let mut it = CountingProducer::new(6).forward();
    let mut front = Vec::new();
    let mut back = Vec::new();
    front.push(it.next().unwrap());
    back.push(it.next_back().unwrap());
    back.push(it.next_back().unwrap());
    front.push(it.next().unwrap());
    front.push(it.next().unwrap());
    back.push(it.next_back().unwrap());
    assert_eq!(it.next(), None);
    assert_eq!(it.next_back(), None);
    assert_eq!(front, [1, 2, 3]);
    assert_eq!(back, [6, 5, 4]);
    let mut all: Vec<usize> = front;
    all.extend(back.iter().rev());
    assert_eq!(all, [1, 2, 3, 4, 5, 6]);
}

#[test]
fn empty_producer() {
    let mut it = CountingProducer::new(0).forward();
    assert_eq!(it.next(), None);
    assert_eq!(it.next_back(), None);
    assert_eq!(it.size_hint(), (0, Some(0)));

    let mut other = CountingProducer::new(0).forward();
    assert_eq!(other.next_back(), None);
    assert_eq!(other.next(), None);
}

#[test]
fn exhaustion_stable() {
    let mut it = CountingProducer::new(3).forward();
    assert_eq!(it.next(), Some(1));
    assert_eq!(it.next_back(), Some(3));
    assert_eq!(it.next(), Some(2));
    for _ in 0..3 {
        assert_eq!(it.next(), None);
        assert_eq!(it.next_back(), None);
    }
}

#[test]
fn nth_skips_forward() {
    let mut it = CountingProducer::new(6).forward();
    assert_eq!(it.nth(2), Some(3));
    assert_eq!(it.next(), Some(4));
    assert_eq!(it.nth(0), Some(5));
    assert_eq!(it.nth(4), None);
    assert_eq!(it.next(), None);
}

#[test]
fn nth_back_skips_backward() {
    let mut it = CountingProducer::new(6).forward();
    assert_eq!(it.nth_back(2), Some(4));
    assert_eq!(it.next_back(), Some(3));
    assert_eq!(it.nth_back(0), Some(2));
    assert_eq!(it.nth_back(4), None);
    assert_eq!(it.next_back(), None);
}

#[test]
fn size_hint_both_representations() {
    let mut it = CountingProducer::new(4).forward();
    assert_eq!(it.size_hint(), (4, Some(4)));
    assert_eq!(it.next(), Some(1));
    assert_eq!(it.size_hint(), (3, Some(3)));
    assert_eq!(it.next_back(), Some(4));
    assert_eq!(it.size_hint(), (2, Some(2)));
}

#[test]
fn fold_combines_forward() {
    let mut it = CountingProducer::new(4).forward();
    let order = it.fold(Vec::new(), |mut acc: Vec<usize>, x| {
        acc.push(x);
        acc
    });
    assert_eq!(order, [1, 2, 3, 4]);
    assert_eq!(it.next(), None);

    let mut sums = CountingProducer::new(10).forward();
    assert_eq!(sums.fold(0usize, |a, b| a + b), 55);
}

#[test]
fn rfold_combines_backward() {
    let mut it = CountingProducer::new(4).forward();
    let order = it.rfold(Vec::new(), |mut acc: Vec<usize>, x| {
        acc.push(x);
        acc
    });
    assert_eq!(order, [4, 3, 2, 1]);
    assert_eq!(it.next_back(), None);
}

#[test]
fn clone_keeps_state() {
    let mut it = CountingProducer::new(4).forward();
    assert_eq!(it.next(), Some(1));
    let mut copy = it.clone();
    assert_eq!(it.next(), Some(2));
    assert_eq!(copy.next(), Some(2));
    assert_eq!(copy.next_back(), Some(4));
    assert_eq!(drain_front(&mut it), [3, 4]);
    assert_eq!(drain_front(&mut copy), [3]);
}

#[test]
fn fold_after_partial_back_consumption() {
    let mut it = CountingProducer::new(5).forward();
    assert_eq!(it.next_back(), Some(5));
    let order = it.fold(Vec::new(), |mut acc: Vec<usize>, x| {
        acc.push(x);
        acc
    });
    assert_eq!(order, [1, 2, 3, 4]);
}
