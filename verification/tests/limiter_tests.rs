use eve_assets::ratelimit::{Ratelimit, RatelimitGroup};

fn second() -> u64 {
    1_000_000_000
}

fn group_1s2_60s120() -> RatelimitGroup {
    let limits = vec![
        Ratelimit::new(second(), 2),
        Ratelimit::new(60 * second(), 120),
    ];
    RatelimitGroup::new(limits)
}

#[test]
fn limiter_basic_two_admit_third_defers() {
    let mut g = group_1s2_60s120();
    assert_eq!(g.hit_at(0), None);
    assert_eq!(g.hit_at(0), None);
    let deferred = g.hit_at(0);
    // the 1-second window is full: wait until its bucket ages out,
    // one bucket width past the interval
    let bucket = second() / 20;
    assert_eq!(deferred, Some(second() + bucket));
    // at t = 1.05s the blocking bucket has aged out and the hit lands
    assert_eq!(g.hit_at(second() + bucket), None);
}

#[test]
fn limiter_no_partial_recording_on_deferral() {
    let mut g = group_1s2_60s120();
    assert_eq!(g.hit_at(0), None);
    assert_eq!(g.hit_at(0), None);
    // deferrals record nothing: the same deferred wait comes back
    let w1 = g.hit_at(0);
    let w2 = g.hit_at(0);
    assert!(w1.is_some());
    assert_eq!(w1, w2);
}

#[test]
fn limiter_single_window_counts_within_interval() {
    let mut g = RatelimitGroup::new(vec![Ratelimit::new(second(), 3)]);
    assert_eq!(g.hit_at(0), None);
    assert_eq!(g.hit_at(100_000_000), None);
    assert_eq!(g.hit_at(200_000_000), None);
    assert!(g.hit_at(300_000_000).is_some());
    // well past the window everything admits again
    assert_eq!(g.hit_at(3 * second()), None);
}

#[test]
fn limiter_empty_group_admits() {
    let mut g = RatelimitGroup::new(Vec::new());
    assert_eq!(g.hit_at(0), None);
    assert_eq!(g.hit_at(1), None);
}

#[test]
fn limiter_wait_suffices_for_lone_requester() {
    let mut g = RatelimitGroup::new(vec![Ratelimit::new(second(), 1)]);
    assert_eq!(g.hit_at(0), None);
    let w = g.hit_at(0).expect("window is full");
    // sleeping exactly the returned wait admits the retry
    assert_eq!(g.hit_at(w), None);
}
