use mancala::strategy::tree::Depth;

#[test]
fn depth_iterator_should_contain_all_intermediate_values() {
    let expected = vec![Depth::Limit(1), Depth::Limit(2), Depth::Limit(3)];

    let actual: Vec<Depth> = Depth::Limit(1).to(Depth::Limit(3)).collect();

    assert_eq!(actual, expected);
}

#[test]
fn depth_iterator_past_its_limit_is_empty() {
    let actual: Vec<Depth> = Depth::Limit(3).to(Depth::Limit(1)).collect();
    assert!(actual.is_empty());
    let single: Vec<Depth> = Depth::Limit(2).to(Depth::Limit(2)).collect();
    assert_eq!(single, vec![Depth::Limit(2)]);
}

#[test]
fn depth_steps() {
    assert!(Depth::Limit(0).is_zero());
    assert!(!Depth::Infinite.is_zero());
    assert_eq!(Depth::Limit(0).decrement(), Depth::Limit(0));
    assert_eq!(Depth::Limit(4).decrement(), Depth::Limit(3));
    assert_eq!(Depth::Infinite.decrement(), Depth::Infinite);
    assert_eq!(Depth::Limit(4).increment(), Depth::Limit(5));
    assert_eq!(Depth::Infinite.increment(), Depth::Infinite);
    let mut steps = Depth::Limit(7).to(Depth::Limit(8));
    assert_eq!(steps.next(), Some(Depth::Limit(7)));
    assert_eq!(steps.next(), Some(Depth::Limit(8)));
    assert_eq!(steps.next(), None);
}
