use std::collections::HashMap;

use yapf::Backend;
use yapf::Random;
use yapf::RoundRobin;
use yapf::Strategy;
use yapf::WeightedRandom;
use yapf::WeightedRoundRobin;

#[test]
fn test_round_robin() {
    let backends = vec![
        Backend::new("1.0.0.1".to_string()),
        Backend::new("1.0.0.2".to_string()),
        Backend::new("1.0.0.3".to_string()),
    ];
    let mut strategy = RoundRobin::build(&backends);
    assert_eq!(strategy.get_next().unwrap().addr, "1.0.0.1");
    assert_eq!(strategy.get_next().unwrap().addr, "1.0.0.2");
    assert_eq!(strategy.get_next().unwrap().addr, "1.0.0.3");
    assert_eq!(strategy.get_next().unwrap().addr, "1.0.0.1");
    assert_eq!(strategy.get_next().unwrap().addr, "1.0.0.2");
    assert_eq!(strategy.get_next().unwrap().addr, "1.0.0.3");
}

#[test]
fn test_random() {
    let backends = vec![
        Backend::new("1.0.0.1".to_string()),
        Backend::new("1.0.0.2".to_string()),
        Backend::new("1.0.0.3".to_string()),
    ];
    let mut strategy = Random::build(&backends);
    let mut seen = [false; 3];
    for _ in 0..100 {
        let backend = strategy.get_next().unwrap();
        match backend.addr.as_str() {
            "1.0.0.1" => seen[0] = true,
            "1.0.0.2" => seen[1] = true,
            "1.0.0.3" => seen[2] = true,
            _ => unreachable!(),
        }
    }
    assert!(seen.iter().all(|&x| x));
}

#[test]
fn test_weighted_round_robin() {
    let backends = vec![
        Backend::new("1.0.0.1".to_string()),
        Backend::new("1.0.0.2".to_string()),
        Backend::new("1.0.0.3".to_string()).with_weight(200),
    ];
    let mut strategy = WeightedRoundRobin::build(&backends);
    assert_eq!(strategy.get_next().unwrap().addr, "1.0.0.3");
    assert_eq!(strategy.get_next().unwrap().addr, "1.0.0.1");
    assert_eq!(strategy.get_next().unwrap().addr, "1.0.0.2");
    assert_eq!(strategy.get_next().unwrap().addr, "1.0.0.3");
    //
    assert_eq!(strategy.get_next().unwrap().addr, "1.0.0.3");
    assert_eq!(strategy.get_next().unwrap().addr, "1.0.0.1");
    assert_eq!(strategy.get_next().unwrap().addr, "1.0.0.2");
    assert_eq!(strategy.get_next().unwrap().addr, "1.0.0.3");

    let backends = vec![
        Backend::new("1.0.0.1".to_string()),
        Backend::new("1.0.0.2".to_string()).with_weight(200),
        Backend::new("1.0.0.3".to_string()).with_weight(300),
    ];
    let mut strategy = WeightedRoundRobin::build(&backends);
    assert_eq!(strategy.get_next().unwrap().addr, "1.0.0.3");
    assert_eq!(strategy.get_next().unwrap().addr, "1.0.0.2");
    assert_eq!(strategy.get_next().unwrap().addr, "1.0.0.3");
    assert_eq!(strategy.get_next().unwrap().addr, "1.0.0.1");
    assert_eq!(strategy.get_next().unwrap().addr, "1.0.0.2");
    assert_eq!(strategy.get_next().unwrap().addr, "1.0.0.3");

    let backends = vec![
        Backend::new("1.0.0.1".to_string()),
        Backend::new("1.0.0.2".to_string()).with_weight(400),
    ];
    let mut strategy = WeightedRoundRobin::build(&backends);
    assert_eq!(strategy.get_next().unwrap().addr, "1.0.0.2");
    assert_eq!(strategy.get_next().unwrap().addr, "1.0.0.2");
    assert_eq!(strategy.get_next().unwrap().addr, "1.0.0.2");
    assert_eq!(strategy.get_next().unwrap().addr, "1.0.0.1");
    assert_eq!(strategy.get_next().unwrap().addr, "1.0.0.2");

    let backends = vec![
        Backend::new("1.0.0.1".to_string()),
        Backend::new("1.0.0.2".to_string()),
        Backend::new("1.0.0.3".to_string()).with_weight(150),
        Backend::new("1.0.0.4".to_string()).with_weight(150),
    ];
    let mut strategy = WeightedRoundRobin::build(&backends);
    assert_eq!(strategy.get_next().unwrap().addr, "1.0.0.3");
    assert_eq!(strategy.get_next().unwrap().addr, "1.0.0.4");
    assert_eq!(strategy.get_next().unwrap().addr, "1.0.0.1");
    assert_eq!(strategy.get_next().unwrap().addr, "1.0.0.2");
    assert_eq!(strategy.get_next().unwrap().addr, "1.0.0.3");
    assert_eq!(strategy.get_next().unwrap().addr, "1.0.0.4");
    assert_eq!(strategy.get_next().unwrap().addr, "1.0.0.1");
    assert_eq!(strategy.get_next().unwrap().addr, "1.0.0.2");
    assert_eq!(strategy.get_next().unwrap().addr, "1.0.0.3");
    assert_eq!(strategy.get_next().unwrap().addr, "1.0.0.4");
}

#[test]
fn test_weighted_round_robin_same_weight() {
    let backends = vec![
        Backend::new("1.0.0.1".to_string()),
        Backend::new("1.0.0.2".to_string()),
        Backend::new("1.0.0.3".to_string()),
    ];
    let mut strategy = WeightedRoundRobin::build(&backends);
    assert_eq!(strategy.get_next().unwrap().addr, "1.0.0.1");
    assert_eq!(strategy.get_next().unwrap().addr, "1.0.0.2");
    assert_eq!(strategy.get_next().unwrap().addr, "1.0.0.3");
    assert_eq!(strategy.get_next().unwrap().addr, "1.0.0.1");
    assert_eq!(strategy.get_next().unwrap().addr, "1.0.0.2");
    assert_eq!(strategy.get_next().unwrap().addr, "1.0.0.3");
}

#[test]
fn test_weighted_random() {
    let backends = vec![
        Backend::new("1.0.0.1".to_string()),
        Backend::new("1.0.0.2".to_string()),
        Backend::new("1.0.0.3".to_string()).with_weight(200),
    ];
    let mut strategy = WeightedRandom::build(&backends);
    let mut count: HashMap<String, u8> = HashMap::new();
    for _ in 0..=100 {
        let backend = strategy.get_next().unwrap();
        *count.entry(backend.addr.clone()).or_insert(0) += 1;
    }
    assert!((15..=35).contains(count.get("1.0.0.1").unwrap())); // 25% chance
    assert!((15..=35).contains(count.get("1.0.0.2").unwrap())); // 25% chance
    assert!((40..=60).contains(count.get("1.0.0.3").unwrap())); // 50% chance
}

#[test]
fn test_weighted_round_robin_never_selects_zero_weight() {
    let backends = vec![
        Backend::new("1.0.0.1".to_string()).with_weight(200),
        Backend::new("1.0.0.2".to_string()),
        Backend::new("1.0.0.3".to_string()).with_weight(0),
    ];
    let mut strategy = WeightedRoundRobin::build(&backends);
    for _ in 0..30 {
        let addr = strategy.get_next().unwrap().addr;
        assert_ne!(addr, "1.0.0.3");
    }
}

#[test]
fn test_weighted_random_never_selects_zero_weight() {
    let backends = vec![
        Backend::new("1.0.0.1".to_string()).with_weight(0),
        Backend::new("1.0.0.2".to_string()).with_weight(100),
    ];
    let mut strategy = WeightedRandom::build(&backends);
    for _ in 0..500 {
        assert_eq!(strategy.get_next().unwrap().addr, "1.0.0.2");
    }
}

#[test]
fn test_weighted_random_all_zero_weights_selects_nothing() {
    let backends = vec![
        Backend::new("1.0.0.1".to_string()).with_weight(0),
        Backend::new("1.0.0.2".to_string()).with_weight(0),
    ];
    let mut strategy = WeightedRandom::build(&backends);
    assert!(strategy.get_next().is_none());
}

#[test]
fn test_strategies_on_empty_pool() {
    let backends: Vec<Backend> = Vec::new();
    assert!(RoundRobin::build(&backends).get_next().is_none());
    assert!(Random::build(&backends).get_next().is_none());
    assert!(WeightedRoundRobin::build(&backends).get_next().is_none());
    assert!(WeightedRandom::build(&backends).get_next().is_none());
}
