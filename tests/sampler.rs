use sysmon::sampler::RateTable;

fn s(x: &str) -> String {
    x.to_string()
}

#[test]
fn first_sight_counts_from_zero() {
    let mut t = RateTable::new();
    assert_eq!(t.get(&s("eth0")), None);
    assert_eq!(t.sample(&s("eth0"), 1000, 500), (1000, 500));
    assert_eq!(t.get(&s("eth0")), Some((1000, 500)));
}

#[test]
fn counter_reset_gives_zero() {
    let mut t = RateTable::new();
    t.sample(&s("eth0"), 100, 100);
    assert_eq!(t.sample(&s("eth0"), 80, 80), (0, 0));
    assert_eq!(t.get(&s("eth0")), Some((80, 80)));
}

#[test]
fn growth_between_samples() {
    let mut t = RateTable::new();
    t.sample(&s("en0"), 10_000, 300);
    assert_eq!(t.sample(&s("en0"), 12_048, 350), (2048, 50));
    assert_eq!(t.sample(&s("en0"), 12_048, 350), (0, 0));
}

#[test]
fn names_kept_apart() {
    let mut t = RateTable::new();
    t.sample(&s("eth0"), 100, 10);
    t.sample(&s("eth1"), 500, 50);
    assert_eq!(t.sample(&s("eth0"), 150, 20), (50, 10));
    assert_eq!(t.get(&s("eth1")), Some((500, 50)));
    t.record(&s("eth1"), 7, 8);
    assert_eq!(t.get(&s("eth1")), Some((7, 8)));
}

#[test]
fn largest_counters() {
    let mut t = RateTable::new();
    assert_eq!(t.sample(&s("eth0"), u64::MAX, u64::MAX), (u64::MAX, u64::MAX));
    assert_eq!(t.sample(&s("eth0"), 0, 0), (0, 0));
}
