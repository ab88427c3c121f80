use lib::cpu::{busy_percent, of_process, of_uid, sample_from, short_name, Sample, IDLE_THREAD};

fn s(cpu_us: i64, at_us: u64) -> Sample {
    Sample { cpu_us, threads: 1, at_us }
}

#[test]
fn load_is_cpu_time_over_wall_time() {
    assert_eq!(s(0, 0).load_percent(&s(500_000, 1_000_000)), Some(50));
    assert_eq!(s(0, 0).load_percent(&s(1_000_000, 1_000_000)), Some(100));
    assert_eq!(s(0, 0).load_percent(&s(0, 1_000_000)), Some(0));
}

#[test]
fn a_busy_second_processor_is_not_capped() {
    assert_eq!(s(0, 0).load_percent(&s(2_000_000, 1_000_000)), Some(200));
}

#[test]
fn nonsense_pairs_answer_nothing_rather_than_zero() {
    assert_eq!(s(0, 1_000).load_percent(&s(0, 1_000)), None, "no time passed");
    assert_eq!(s(0, 2_000).load_percent(&s(0, 1_000)), None, "samples out of order");
    assert_eq!(s(500, 0).load_percent(&s(100, 1_000)), None, "cpu time went backwards");
}

#[test]
fn a_long_uptime_does_not_overflow_the_multiply() {
    let a = s(0, 0);
    let b = s(50_000_000_000, 100_000_000_000);
    assert_eq!(a.load_percent(&b), Some(50));
}

#[test]
fn tenths_keep_the_resolution_a_whole_percent_throws_away() {
    let a = s(0, 0);
    let b = s(40_000, 10_000_000);
    assert_eq!(a.load_tenths(&b), Some(4), "0.4%");
    assert_eq!(a.load_percent(&b), Some(0), "and 0 when rounded to whole percent");
}

#[test]
fn busy_is_total_minus_idle() {
    let a0 = s(0, 0);
    let a1 = s(1_000_000, 1_000_000);
    let i0 = s(0, 0);
    let i1 = s(800_000, 1_000_000);
    assert_eq!(busy_percent((&a0, &a1), (&i0, &i1)), Some(20));
}

#[test]
fn a_fully_idle_phone_is_zero_not_a_hundred() {
    let a0 = s(0, 0);
    let a1 = s(1_000_000, 1_000_000);
    assert_eq!(busy_percent((&a0, &a1), (&a0, &a1)), Some(0));
}

#[test]
fn unmeasurable_busy_is_none_rather_than_idle() {
    let a0 = s(0, 0);
    let a1 = s(1_000_000, 1_000_000);
    assert_eq!(busy_percent((&a1, &a1), (&a0, &a0)), None);
    let i1 = s(2_000_000, 1_000_000);
    assert_eq!(busy_percent((&a0, &a1), (&a0, &i1)), None);
}

#[test]
fn the_process_pattern_matches_every_thread() {
    assert_eq!(of_process("launcher"), "launcher*::*");
}

#[test]
fn the_uid_pattern_is_lower_case_hex_in_brackets() {
    assert_eq!(of_uid(0xE0AA_0000), "*[e0aa0000]*::*");
    assert_eq!(of_uid(1), "*[00000001]*::*");
}

#[test]
fn a_full_name_reduces_to_the_executable() {
    assert_eq!(short_name("launcher[e0aa0000]0001"), "launcher");
    assert_eq!(short_name("launcher[e0aa0000]0001::Main"), "launcher");
    assert_eq!(short_name("plain"), "plain");
    assert_eq!(short_name("plain::Main"), "plain");
}

#[test]
fn a_cpu_figure_that_cannot_be_differenced_is_no_answer() {
    assert_eq!(s(i64::MIN, 0).load_tenths(&s(i64::MAX, 10)), None);
    assert_eq!(IDLE_THREAD, "*::Null");
    assert_eq!(short_name("a:b::c[x]"), "a:b::c");
    assert_eq!(short_name(""), "");
}

#[test]
fn a_pattern_no_thread_matches_is_not_found_rather_than_zero() {
    assert_eq!(sample_from(0, 0, 0, 5), Err(lib::Error::NotFound));
    assert_eq!(sample_from(-4, 10, 3, 5), Err(lib::Error::NoMemory));
    let s = sample_from(0, 1_500, 2, 7).unwrap();
    assert_eq!((s.cpu_us, s.threads, s.at_us), (1_500, 2, 7));
}
