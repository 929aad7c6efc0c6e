use cpu_timer::profiler::{ProfileAnchor, Profiler};

#[test]
fn balanced_pairs_count_hits_and_sum_intervals() {
    let mut p = Profiler::new(0);
    let times: [(u64, u64); 4] = [(10, 13), (20, 20), (25, 32), (100, 150)];
    for (b, e) in times {
        p.begin_region("x", b);
        p.end_region("x", e);
    }
    let a = p.anchor("x").unwrap();
    assert_eq!(a.hit_count, 4);
    assert_eq!(a.tsc_elapsed, 3 + 0 + 7 + 50);
    assert!(!a.is_open);
}

#[test]
fn reentry_folds_the_first_interval() {
    let mut p = Profiler::new(0);
    p.begin_region("x", 10);
    p.begin_region("x", 15);
    let a = p.anchor("x").unwrap();
    assert_eq!(
        a,
        ProfileAnchor { start_tsc: 15, tsc_elapsed: 5, hit_count: 2, is_open: true }
    );
    p.end_region("x", 22);
    let a = p.anchor("x").unwrap();
    assert_eq!(a.tsc_elapsed, 12);
    assert_eq!(a.hit_count, 2);
}

#[test]
fn unbalanced_end_is_a_zero_duration_hit() {
    let mut p = Profiler::new(0);
    p.end_region("y", 77);
    let a = p.anchor("y").unwrap();
    assert_eq!(a.tsc_elapsed, 0);
    assert_eq!(a.hit_count, 1);
    assert!(!a.is_open);
}

#[test]
fn second_end_adds_nothing() {
    let mut p = Profiler::new(0);
    p.begin_region("z", 1);
    p.end_region("z", 4);
    p.end_region("z", 90);
    assert_eq!(p.anchor("z").unwrap().tsc_elapsed, 3);
}

#[test]
fn missing_region_has_no_anchor() {
    let mut p = Profiler::new(0);
    p.begin_region("a", 1);
    assert_eq!(p.anchor("b"), None);
    assert_eq!(p.len(), 1);
}

#[test]
fn regions_are_kept_apart() {
    let mut p = Profiler::new(0);
    p.begin_region("a", 1);
    p.begin_region("b", 2);
    p.end_region("a", 10);
    p.end_region("b", 4);
    assert_eq!(p.len(), 2);
    assert_eq!(p.anchor("a").unwrap().tsc_elapsed, 9);
    assert_eq!(p.anchor("b").unwrap().tsc_elapsed, 2);
}

#[test]
fn reading_before_start_counts_as_no_time() {
    let mut p = Profiler::new(0);
    p.begin_region("a", 50);
    p.end_region("a", 40);
    assert_eq!(p.anchor("a").unwrap().tsc_elapsed, 0);
}

#[test]
fn elapsed_saturates() {
    let mut p = Profiler::new(0);
    p.begin_region("a", 0);
    p.end_region("a", u64::MAX);
    p.begin_region("a", 0);
    p.end_region("a", 5);
    assert_eq!(p.anchor("a").unwrap().tsc_elapsed, u64::MAX);
}

#[test]
fn end_session_keeps_the_table() {
    let mut p = Profiler::new(3);
    p.begin_region("a", 4);
    p.end_session(9);
    assert_eq!(p.start_tsc, 3);
    assert_eq!(p.end_tsc, 9);
    assert_eq!(p.len(), 1);
}
