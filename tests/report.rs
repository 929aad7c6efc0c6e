use cpu_timer::profiler::Profiler;
use cpu_timer::report::ReportError;
use cpu_timer::text::{decimal_u64, fixed_point};

fn scenario() -> Profiler {
    let mut p = Profiler::new(0);
    p.begin_region("main", 0);
    p.begin_region("loop", 0);
    p.end_region("loop", 3);
    p.begin_region("tail", 3);
    p.end_region("tail", 4);
    p.end_region("main", 4);
    p.end_session(4);
    p
}

#[test]
fn end_to_end_breakdown() {
    let p = scenario();
    assert_eq!(p.anchor("main").unwrap().tsc_elapsed, 4);
    let rows = p.report("main");
    assert_eq!(rows.len(), 2);
    assert_eq!(rows[0].name, "loop");
    assert_eq!(rows[0].hit_count, 1);
    assert_eq!(rows[0].tsc_elapsed, 3);
    assert_eq!(rows[0].percent_hundredths, 7500);
    assert_eq!(rows[1].name, "tail");
    assert_eq!(rows[1].hit_count, 1);
    assert_eq!(rows[1].tsc_elapsed, 1);
    assert_eq!(rows[1].percent_hundredths, 2500);
    assert_eq!(rows[0].percent_hundredths + rows[1].percent_hundredths, 10000);
    assert_eq!(p.reconciled_total("main"), 4);
    assert_eq!(p.total_difference("main"), 0);
}

#[test]
fn end_to_end_text() {
    let p = scenario();
    let text = p.generate_report("main", 1000).unwrap();
    assert_eq!(
        text,
        "Total main: 4.0000ms\nloop [1] took: 3, 75.00%\ntail [1] took: 1, 25.00%\n"
    );
}

#[test]
fn report_twice_is_identical() {
    let p = scenario();
    let a = p.generate_report("main", 3_000_000_000).unwrap();
    let b = p.generate_report("main", 3_000_000_000).unwrap();
    assert_eq!(a, b);
    assert_eq!(p.report("main"), p.report("main"));
}

#[test]
fn zero_frequency_is_an_error() {
    let p = scenario();
    assert_eq!(
        p.generate_report("main", 0),
        Err(ReportError::CalibrationUnavailable)
    );
}

#[test]
fn nested_regions_exceed_the_total() {
    let mut p = Profiler::new(0);
    p.begin_region("main", 0);
    p.begin_region("outer", 0);
    p.begin_region("inner", 2);
    p.end_region("inner", 6);
    p.end_region("outer", 8);
    p.end_region("main", 10);
    assert_eq!(p.reconciled_total("main"), 12);
    assert_eq!(p.total_difference("main"), 2);
    let rows = p.report("main");
    assert_eq!(rows[0].percent_hundredths, 8000);
    assert_eq!(rows[1].percent_hundredths, 4000);
}

#[test]
fn missing_root_gives_zero_shares() {
    let mut p = Profiler::new(0);
    p.begin_region("a", 0);
    p.end_region("a", 5);
    assert_eq!(p.root_cycles("main"), 0);
    let rows = p.report("main");
    assert_eq!(rows.len(), 1);
    assert_eq!(rows[0].percent_hundredths, 0);
    assert_eq!(p.total_difference("main"), 5);
}

#[test]
fn header_milliseconds_with_four_decimals() {
    let mut p = Profiler::new(100);
    p.end_session(100 + 1_234_567);
    let text = p.generate_report("main", 1_000_000_000).unwrap();
    assert_eq!(text, "Total main: 1.2345ms\n");
}

#[test]
fn shares_are_rounded_down() {
    let mut p = Profiler::new(0);
    p.begin_region("all", 0);
    p.begin_region("third", 0);
    p.end_region("third", 1);
    p.end_region("all", 3);
    p.end_session(3);
    let text = p.generate_report("all", 1000).unwrap();
    assert_eq!(text, "Total all: 3.0000ms\nthird [1] took: 1, 33.33%\n");
}

#[test]
fn decimal_digits() {
    assert_eq!(decimal_u64(0), "0");
    assert_eq!(decimal_u64(1234), "1234");
    assert_eq!(decimal_u64(u64::MAX), "18446744073709551615");
}

#[test]
fn fixed_point_pads_the_fraction() {
    assert_eq!(fixed_point(5, 2), "0.05");
    assert_eq!(fixed_point(7500, 2), "75.00");
    assert_eq!(fixed_point(123456, 4), "12.3456");
    assert_eq!(fixed_point(10, 1), "1.0");
}
