use monte_carlo_pi::aggregate::{
    combine_partials, detected_workers, monte_carlo_pi, partition, total_hits, worker_count, Mode,
    Partition, RunSummary,
};
use monte_carlo_pi::cli::{parse_args, parse_mode, parse_sample, ArgError, Invocation};
use monte_carlo_pi::sampler::{is_hit, sample_hits, Generator, SCALE};

fn estimate(summary: &RunSummary) -> f64 {
    4.0 * summary.hits as f64 / summary.sample as f64
}

fn args(words: &[&str]) -> Vec<String> {
    words.iter().map(|w| w.to_string()).collect()
}

fn run_multi(sample: u64, workers: usize) -> RunSummary {
    let p = partition(sample, workers);
    let partials: Vec<u64> = (0..p.workers).map(|_| sample_hits(&mut Generator::new(), p.block)).collect();
    combine_partials(sample, p.workers, &partials).unwrap()
}

#[test]
fn origin_is_a_hit() {
    assert!(is_hit(0, 0));
}

#[test]
fn points_on_the_circle_are_hits() {
    assert!(is_hit(SCALE, 0));
    assert!(is_hit(0, -SCALE));
    assert!(is_hit(-SCALE, 0));
}

#[test]
fn corners_and_points_just_outside_are_misses() {
    assert!(!is_hit(SCALE, SCALE));
    assert!(!is_hit(-SCALE, SCALE));
    assert!(!is_hit(SCALE, 1));
}

#[test]
fn empty_partition_has_no_hits() {
    assert_eq!(sample_hits(&mut Generator::new(), 0), 0);
}

#[test]
fn hits_never_exceed_draws() {
    let mut g = Generator::new();
    let h = sample_hits(&mut g, 1000);
    assert!(h <= 1000);
    // With 1000 draws all inside or all outside the disc is out of the question.
    assert!(h > 0 && h < 1000);
}

#[test]
fn single_estimate_is_close_to_pi() {
    let r = monte_carlo_pi(&mut Generator::new(), 2_000_000);
    assert!((estimate(&r) - std::f64::consts::PI).abs() < 0.01);
}

#[test]
fn multi_estimate_agrees_with_single() {
    let single = monte_carlo_pi(&mut Generator::new(), 2_000_000);
    let multi = run_multi(2_000_000, 4);
    assert!((estimate(&multi) - std::f64::consts::PI).abs() < 0.01);
    assert!((estimate(&multi) - estimate(&single)).abs() < 0.02);
}

#[test]
fn single_run_reports_one_core_and_its_sample() {
    let r = monte_carlo_pi(&mut Generator::new(), 12345);
    assert_eq!(r.mode, Mode::Single);
    assert_eq!(r.cores, 1);
    assert_eq!(r.sample, 12345);
    assert!(r.hits <= 12345);
}

#[test]
fn multi_run_echoes_sample_despite_truncation() {
    let r = run_multi(10, 3);
    assert_eq!(r.mode, Mode::Multi);
    assert_eq!(r.cores, 3);
    assert_eq!(r.sample, 10);
    assert!(r.hits <= 9);
}

#[test]
fn partition_drops_remainder() {
    assert_eq!(partition(10, 3), Partition { workers: 3, block: 3 });
    assert_eq!(partition(12, 4), Partition { workers: 4, block: 3 });
    assert_eq!(partition(2, 5), Partition { workers: 5, block: 0 });
}

#[test]
fn worker_count_treats_zero_as_one() {
    assert_eq!(worker_count(0), 1);
    assert_eq!(worker_count(1), 1);
    assert_eq!(worker_count(8), 8);
}

#[test]
fn detected_workers_match_host_parallelism() {
    let w = detected_workers();
    assert!(w >= 1);
    assert_eq!(w, worker_count(num_cpus::get()));
}

#[test]
fn total_hits_sums_partials() {
    assert_eq!(total_hits(&vec![]), Some(0));
    assert_eq!(total_hits(&vec![3, 4, 5]), Some(12));
    assert_eq!(total_hits(&vec![u64::MAX, 0]), Some(u64::MAX));
}

#[test]
fn total_hits_reports_overflow() {
    assert_eq!(total_hits(&vec![u64::MAX, 1]), None);
    assert_eq!(combine_partials(5, 2, &vec![u64::MAX, 1]), None);
}

#[test]
fn drawn_points_lie_in_the_square() {
    let mut g = Generator::new();
    for _ in 0..1000 {
        let (x, y) = g.draw_point();
        assert!(-SCALE <= x && x <= SCALE);
        assert!(-SCALE <= y && y <= SCALE);
    }
}

#[test]
fn one_generator_serves_several_runs() {
    let mut g = Generator::new();
    let a = monte_carlo_pi(&mut g, 500_000);
    let b = monte_carlo_pi(&mut g, 500_000);
    assert!((estimate(&a) - std::f64::consts::PI).abs() < 0.02);
    assert!((estimate(&b) - std::f64::consts::PI).abs() < 0.02);
}

#[test]
fn combine_reports_sum_workers_and_sample() {
    let r = combine_partials(100, 3, &vec![20, 25, 30]).unwrap();
    assert_eq!(
        r,
        RunSummary { mode: Mode::Multi, cores: 3, sample: 100, hits: 75 }
    );
    assert_eq!(estimate(&r), 3.0);
}

#[test]
fn mode_labels() {
    assert_eq!(Mode::Single.label(), "single threaded");
    assert_eq!(Mode::Multi.label(), "multi threaded");
}

#[test]
fn parse_sample_reads_decimal_counts() {
    assert_eq!(parse_sample("0"), Some(0));
    assert_eq!(parse_sample("1000000"), Some(1_000_000));
    assert_eq!(parse_sample("+42"), Some(42));
    assert_eq!(parse_sample("007"), Some(7));
    assert_eq!(parse_sample("18446744073709551615"), Some(u64::MAX));
}

#[test]
fn parse_sample_rejects_malformed_counts() {
    assert_eq!(parse_sample(""), None);
    assert_eq!(parse_sample("+"), None);
    assert_eq!(parse_sample("-5"), None);
    assert_eq!(parse_sample("12a"), None);
    assert_eq!(parse_sample(" 12"), None);
    assert_eq!(parse_sample("1.5"), None);
    assert_eq!(parse_sample("18446744073709551616"), None);
    assert_eq!(parse_sample("99999999999999999999999"), None);
}

#[test]
fn parse_sample_agrees_with_std() {
    for t in ["", "+", "-0", "0", "+0", "123", "++1", "18446744073709551615", "18446744073709551616", "9x"] {
        assert_eq!(parse_sample(t), t.parse::<u64>().ok(), "{}", t);
    }
}

#[test]
fn parse_mode_words() {
    assert_eq!(parse_mode("single"), Some(Mode::Single));
    assert_eq!(parse_mode("multi"), Some(Mode::Multi));
    assert_eq!(parse_mode("Single"), None);
    assert_eq!(parse_mode("multi "), None);
    assert_eq!(parse_mode(""), None);
}

#[test]
fn parse_args_runs() {
    assert_eq!(
        parse_args(&args(&["pi", "single", "1000"])),
        Ok(Invocation::Run { mode: Mode::Single, sample: 1000 })
    );
    assert_eq!(
        parse_args(&args(&["pi", "multi", "5", "extra"])),
        Ok(Invocation::Run { mode: Mode::Multi, sample: 5 })
    );
}

#[test]
fn unknown_mode_is_command_not_found() {
    assert_eq!(parse_args(&args(&["pi", "double", "1000"])), Ok(Invocation::NotFound));
}

#[test]
fn missing_arguments_are_errors() {
    assert_eq!(parse_args(&args(&[])), Err(ArgError::MissingMode));
    assert_eq!(parse_args(&args(&["pi"])), Err(ArgError::MissingMode));
    assert_eq!(parse_args(&args(&["pi", "single"])), Err(ArgError::MissingSample));
    assert_eq!(parse_args(&args(&["pi", "nonsense"])), Err(ArgError::MissingSample));
}

#[test]
fn non_numeric_sample_is_an_error_before_the_mode_is_read() {
    assert_eq!(parse_args(&args(&["pi", "single", "many"])), Err(ArgError::InvalidSample));
    assert_eq!(parse_args(&args(&["pi", "nonsense", "many"])), Err(ArgError::InvalidSample));
}
