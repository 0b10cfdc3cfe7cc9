use label::{Collection, CollectionIter, CollectionNode};

fn drain<'a, E>(it: &mut CollectionIter, c: &'a Collection<E>) -> Vec<&'a E> {
    let mut out: Vec<&'a E> = Vec::new();
    while let Some(e) = it.next(c) {
        out.push(e);
    }
    out
}

#[test]
fn empty_collection_iterates_to_nothing() {
    let c: Collection<u32> = Collection::new();
    let mut it = c.iter();
    assert!(it.next(&c).is_none());
    // exhausted iterators stay exhausted
    assert!(it.next(&c).is_none());
}

#[test]
fn single_push_yields_exactly_that_element() {
    let mut c: Collection<u32> = Collection::new();
    c.push(CollectionNode::new(7));
    let mut it = c.iter();
    let got = drain(&mut it, &c);
    assert_eq!(got, vec![&7]);
}

#[test]
fn sequential_pushes_come_back_in_reverse_order() {
    let mut c: Collection<u64> = Collection::new();
    for x in 0..5u64 {
        c.push(CollectionNode::new(x * 10));
    }
    let mut it = c.iter();
    let got: Vec<u64> = drain(&mut it, &c).into_iter().copied().collect();
    assert_eq!(got, vec![40, 30, 20, 10, 0]);
}

#[test]
fn iteration_step_count_equals_push_count() {
    let mut c: Collection<u8> = Collection::new();
    for _ in 0..17 {
        c.push(CollectionNode::new(0));
    }
    let mut it = c.iter();
    let mut steps: usize = 0;
    while it.next(&c).is_some() {
        steps += 1;
    }
    assert_eq!(steps, 17);
}

#[test]
fn no_element_is_lost_or_duplicated() {
    let mut c: Collection<usize> = Collection::new();
    let n: usize = 50;
    for x in 0..n {
        c.push(CollectionNode::new(x));
    }
    let mut it = c.iter();
    let got: Vec<usize> = drain(&mut it, &c).into_iter().copied().collect();
    assert_eq!(got.len(), n);
    let mut seen = vec![false; n];
    for x in got {
        assert!(!seen[x], "element yielded twice");
        seen[x] = true;
    }
    assert!(seen.iter().all(|b| *b));
}

#[test]
fn iterating_twice_gives_identical_sequences() {
    let mut c: Collection<String> = Collection::new();
    c.push(CollectionNode::new(String::from("first")));
    c.push(CollectionNode::new(String::from("second")));
    let mut it1 = c.iter();
    let mut it2 = c.iter();
    let a = drain(&mut it1, &c);
    let b = drain(&mut it2, &c);
    assert_eq!(a, b);
    assert_eq!(a, vec!["second", "first"]);
}

#[test]
fn snapshot_taken_before_a_push_is_undisturbed() {
    let mut c: Collection<char> = Collection::new();
    c.push(CollectionNode::new('A'));
    c.push(CollectionNode::new('B'));
    c.push(CollectionNode::new('C'));

    let mut it = c.iter();
    let got: Vec<char> = drain(&mut it, &c).into_iter().copied().collect();
    assert_eq!(got, vec!['C', 'B', 'A']);

    let mut early = c.iter();
    c.push(CollectionNode::new('D'));

    let mut late = c.iter();
    let with_d: Vec<char> = drain(&mut late, &c).into_iter().copied().collect();
    assert_eq!(with_d, vec!['D', 'C', 'B', 'A']);

    // the iterator created before D was pushed still walks its own snapshot
    let without_d: Vec<char> = drain(&mut early, &c).into_iter().copied().collect();
    assert_eq!(without_d, vec!['C', 'B', 'A']);
}
