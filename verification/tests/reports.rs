use sim::fighting::FightingSimResult;
use sim::thieving::ThievingSimResult;
use sim::AggregateError;

#[test]
fn duration_zero_is_all_zeros() {
    assert_eq!(sim::text::format_duration_as_hms(0), "00:00:00");
}

#[test]
fn duration_mixed_fields() {
    assert_eq!(sim::text::format_duration_as_hms(3661), "01:01:01");
}

#[test]
fn duration_hours_not_wrapped_at_twenty_four() {
    assert_eq!(sim::text::format_duration_as_hms(90000), "25:00:00");
}

#[test]
fn min_max_finds_extremes() {
    let v: Vec<u64> = vec![3, 1, 2];
    let (mn, mx) = sim::fighting::min_max(&v);
    assert_eq!(mn, 1);
    assert_eq!(mx, 3);
}

fn fight_result(time: u16, enemy_killed: u16) -> FightingSimResult {
    FightingSimResult { time, enemy_killed }
}

#[test]
fn fighting_report_odd_population() {
    let pop = vec![fight_result(5, 2), fight_result(1, 4), fight_result(3, 9)];
    let report = sim::fighting::format_fighting_results(&pop).unwrap();
    let expected = "Mean time: 00:00:03\n\
                    Median time: 00:00:03\n\
                    Min time: 00:00:01\n\
                    Max time: 00:00:05\n\
                    ------------------------\n\
                    Mean killed: 5.00\n\
                    Median killed: 4.00\n\
                    Min killed: 2.00\n\
                    Max killed: 9.00\n";
    assert_eq!(report, expected);
}

#[test]
fn fighting_report_even_population_median() {
    let pop = vec![fight_result(1, 1), fight_result(2, 2)];
    let report = sim::fighting::format_fighting_results(&pop).unwrap();
    let expected = "Mean time: 00:00:01\n\
                    Median time: 00:00:01\n\
                    Min time: 00:00:01\n\
                    Max time: 00:00:02\n\
                    ------------------------\n\
                    Mean killed: 1.50\n\
                    Median killed: 1.50\n\
                    Min killed: 1.00\n\
                    Max killed: 2.00\n";
    assert_eq!(report, expected);
}

#[test]
fn fighting_report_empty_population_is_an_error() {
    let pop: Vec<FightingSimResult> = Vec::new();
    assert_eq!(
        sim::fighting::format_fighting_results(&pop),
        Err(AggregateError::EmptyPopulation)
    );
}

#[test]
fn fighting_report_is_idempotent() {
    let pop = vec![fight_result(5, 2), fight_result(1, 4), fight_result(3, 9)];
    let a = sim::fighting::format_fighting_results(&pop).unwrap();
    let b = sim::fighting::format_fighting_results(&pop).unwrap();
    assert_eq!(a, b);
}

fn thieve_result(time: u32, money: u64, succ: u32, fail: u32) -> ThievingSimResult {
    ThievingSimResult {
        time,
        money_earned: money,
        success_thieving_count: succ,
        failed_thieving_count: fail,
        thieving_count: succ + fail,
    }
}

#[test]
fn thieving_report_small_population_divides_by_its_size() {
    let pop = vec![thieve_result(10, 100, 1, 0), thieve_result(20, 200, 2, 1)];
    let report = sim::thieving::format_thieve_results(&pop).unwrap();
    let expected = "Mean time: 00:00:15\n\
                    Max mean time: 00:00:15\n\
                    Min mean time: 00:00:15\n\
                    --------------------\n\
                    Mean money earned: 150.00\n\
                    Max money earned: 150.00\n\
                    Min money earned: 150.00\n\
                    --------------------\n\
                    Success thieving: 1.50\n\
                    Failed thieving: 0.50\n\
                    Thieving count: 2.00\n";
    assert_eq!(report, expected);
}

#[test]
fn thieving_report_empty_population_is_an_error() {
    let pop: Vec<ThievingSimResult> = Vec::new();
    assert_eq!(
        sim::thieving::format_thieve_results(&pop),
        Err(AggregateError::EmptyPopulation)
    );
}

#[test]
fn thieving_report_is_idempotent() {
    let pop = vec![thieve_result(10, 100, 1, 0), thieve_result(20, 200, 2, 1)];
    let a = sim::thieving::format_thieve_results(&pop).unwrap();
    let b = sim::thieving::format_thieve_results(&pop).unwrap();
    assert_eq!(a, b);
}

#[test]
fn trimmed_means_equal_true_mean_at_exactly_the_trim_count() {
    let mut pop: Vec<ThievingSimResult> = Vec::new();
    for i in 0..500u64 {
        pop.push(thieve_result(0, i, 0, 0));
    }
    let report = sim::thieving::format_thieve_results(&pop).unwrap();
    // The population's mean money is 249.5; both trims cover every value.
    assert!(report.contains("Mean money earned: 249.50"));
    assert!(report.contains("Max money earned: 249.50"));
    assert!(report.contains("Min money earned: 249.50"));
}

#[test]
fn trimmed_means_differ_above_the_trim_count() {
    let mut pop: Vec<ThievingSimResult> = Vec::new();
    for i in 0..=500u64 {
        pop.push(thieve_result(0, i, 0, 0));
    }
    let report = sim::thieving::format_thieve_results(&pop).unwrap();
    assert!(report.contains("Mean money earned: 250.00"));
    assert!(report.contains("Max money earned: 250.50"));
    assert!(report.contains("Min money earned: 249.50"));
}
