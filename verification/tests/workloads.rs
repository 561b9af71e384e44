use canopy::relay::workloads::{daemon, database, scaled, Grader, Replicas, Share};
use canopy::status::CheckResult;

const SEC: u64 = 1_000_000_000;
const MIN: u64 = 60 * SEC;
/// A moment well clear of the clock's start, so ten minutes before it exists.
const T: u64 = 3_600 * SEC;

fn at(percent: u64) -> Share {
    Share { desired: 100, ready: percent }
}

fn percent(share: Share) -> f64 {
    if share.desired == 0 {
        100.0
    } else {
        share.ready as f64 * 100.0 / share.desired as f64
    }
}

/// A grader that already holds a result, as it does once it has run a while.
fn settled(result: CheckResult, at: u64) -> Grader {
    Grader::resume(at - 10 * MIN, result)
}

/// Hold a share from `from` for `span`, observing every ten seconds, and
/// return the last result.
fn hold(g: &mut Grader, p: u64, from: u64, span: u64) -> Option<CheckResult> {
    let mut last = None;
    let mut t = 0;
    while t <= span {
        last = g.observe(at(p), from + t);
        t += 10 * SEC;
    }
    last
}

#[test]
fn the_share_is_ready_over_desired_across_workloads() {
    let share = Share::sum(&[
        scaled(Some(3), Some(3)),
        scaled(Some(2), Some(1)),
        daemon(4, 4),
        database(Some(3), Some(2), None).unwrap(),
    ]);
    assert_eq!(share, Share { desired: 12, ready: 10 });
}

#[test]
fn a_workload_whose_pods_cannot_be_created_counts_against_the_share() {
    let share = Share::sum(&[scaled(Some(4), None), scaled(Some(4), Some(4))]);
    assert_eq!(percent(share), 50.0);
}

#[test]
fn a_workload_scaled_to_zero_adds_nothing() {
    assert_eq!(scaled(Some(0), None), Replicas::default());
    assert_eq!(
        database(Some(1), Some(0), Some("on")),
        None,
        "a hibernated database cluster is left out",
    );
    let mut all: Vec<Replicas> = vec![scaled(Some(0), None), scaled(Some(2), Some(2))];
    all.extend(database(Some(1), Some(0), Some("on")));
    let share = Share::sum(&all);
    assert_eq!(percent(share), 100.0);
}

#[test]
fn a_surging_rollout_is_not_more_than_fully_running() {
    assert_eq!(scaled(Some(2), Some(3)), Replicas::new(2, 2));
}

#[test]
fn a_cluster_asking_for_nothing_is_fully_running() {
    assert_eq!(percent(Share::default()), 100.0);
    let mut g = Grader::new(T);
    assert_eq!(g.observe(Share::default(), T), Some(CheckResult::Passed));
}

#[test]
fn bands_follow_their_holds() {
    let mut g = settled(CheckResult::Passed, T);
    assert_eq!(hold(&mut g, 89, T, 4 * MIN), Some(CheckResult::Passed));
    assert_eq!(g.observe(at(89), T + 5 * MIN), Some(CheckResult::Warning));

    let mut g = settled(CheckResult::Passed, T);
    assert_eq!(hold(&mut g, 79, T, 5 * MIN), Some(CheckResult::Failed));

    let mut g = settled(CheckResult::Passed, T);
    assert_eq!(hold(&mut g, 65, T, 90 * SEC), Some(CheckResult::Passed));
    assert_eq!(g.observe(at(65), T + 2 * MIN), Some(CheckResult::Failed));

    let mut g = settled(CheckResult::Passed, T);
    assert_eq!(g.observe(at(45), T), Some(CheckResult::Failed));
}

#[test]
fn a_shallow_dip_that_recovers_inside_its_hold_files_nothing_degraded() {
    let mut g = settled(CheckResult::Passed, T);
    assert_eq!(hold(&mut g, 85, T, 4 * MIN), Some(CheckResult::Passed));
    assert_eq!(g.observe(at(97), T + 4 * MIN + 30 * SEC), Some(CheckResult::Passed));
    // And the clock restarts after it: another dip is timed afresh.
    assert_eq!(hold(&mut g, 85, T + 5 * MIN, 4 * MIN), Some(CheckResult::Passed));
}

#[test]
fn crossing_back_over_an_edge_takes_the_hysteresis_margin() {
    let mut g = settled(CheckResult::Warning, T);
    assert_eq!(g.observe(at(92), T), Some(CheckResult::Warning));
    assert_eq!(g.observe(at(96), T), Some(CheckResult::Passed));

    let mut g = settled(CheckResult::Failed, T);
    assert_eq!(g.observe(at(83), T), Some(CheckResult::Failed));
    assert_eq!(g.observe(at(86), T), Some(CheckResult::Warning));

    let mut g = settled(CheckResult::Failed, T);
    assert_eq!(g.observe(at(97), T), Some(CheckResult::Passed), "recovery is not held");
}

#[test]
fn a_fresh_relay_files_at_once_only_where_history_does_not_matter() {
    assert_eq!(Grader::new(T).observe(at(97), T), Some(CheckResult::Passed));
    assert_eq!(Grader::new(T).observe(at(40), T), Some(CheckResult::Failed));
    assert_eq!(Grader::new(T).observe(at(92), T), None);
}

#[test]
fn a_fresh_relay_in_the_middle_waits_out_the_governing_hold() {
    let mut g = Grader::new(T);
    assert_eq!(hold(&mut g, 85, T, 4 * MIN), None, "nothing filed yet");
    assert_eq!(g.observe(at(85), T + 5 * MIN), Some(CheckResult::Warning));

    let mut g = Grader::new(T);
    assert_eq!(hold(&mut g, 65, T, 90 * SEC), None);
    assert_eq!(g.observe(at(65), T + 2 * MIN), Some(CheckResult::Failed));

    let mut g = Grader::new(T);
    assert_eq!(hold(&mut g, 92, T, 4 * MIN), None);
    assert_eq!(g.observe(at(92), T + 5 * MIN), Some(CheckResult::Passed));
}

#[test]
fn a_share_exactly_on_a_line_is_not_under_it() {
    // 90% is not under 90%, so it files no warning however long it holds.
    let mut g = settled(CheckResult::Passed, T);
    assert_eq!(hold(&mut g, 90, T, 10 * MIN), Some(CheckResult::Passed));
    // 50% is not under 50%: it waits for the holds rather than failing at once.
    assert_eq!(Grader::new(T).observe(at(50), T), None);
}

#[test]
fn a_fresh_relay_grades_by_band_once_the_longest_hold_has_run() {
    // Started long ago but never observed: the band decides.
    let mut g = Grader::new(T - 10 * MIN);
    assert_eq!(g.observe(at(85), T), Some(CheckResult::Warning));
    let mut g = Grader::new(T - 10 * MIN);
    assert_eq!(g.observe(at(75), T), Some(CheckResult::Failed));
    let mut g = Grader::new(T - 10 * MIN);
    assert_eq!(g.observe(at(91), T), Some(CheckResult::Passed));
}

#[test]
fn a_surge_counts_as_fully_running_in_a_daemon_and_a_database() {
    assert_eq!(daemon(3, 5), Replicas::new(3, 3));
    assert_eq!(daemon(-1, -1), Replicas::new(0, 0));
    assert_eq!(database(Some(2), Some(7), Some("off")), Some(Replicas::new(2, 2)));
    assert_eq!(database(None, None, None), Some(Replicas::new(0, 0)));
    assert_eq!(scaled(None, None), Replicas::new(1, 0), "one replica by default");
}

#[test]
fn a_grader_that_has_filed_files_on_every_later_observation() {
    let mut g = Grader::new(T);
    assert_eq!(g.observe(at(97), T), Some(CheckResult::Passed));
    assert_eq!(g.observe(at(92), T + 10 * SEC), Some(CheckResult::Passed));
    assert_eq!(g.observe(at(60), T + 20 * SEC), Some(CheckResult::Passed));
    assert_eq!(g.observe(at(40), T + 30 * SEC), Some(CheckResult::Failed));
    assert_eq!(g.observe(at(99), T + 40 * SEC), Some(CheckResult::Passed));
}

#[test]
fn shares_sum_the_same_in_either_order_and_an_empty_list_sums_to_nothing() {
    let xs = [scaled(Some(4), Some(3)), scaled(Some(2), None)];
    let ys = [scaled(Some(5), Some(5))];
    let forward: Vec<Replicas> = xs.iter().chain(ys.iter()).copied().collect();
    let backward: Vec<Replicas> = ys.iter().chain(xs.iter()).copied().collect();
    assert_eq!(Share::sum(&forward), Share::sum(&backward));
    assert_eq!(Share::sum(&forward).desired, Share::sum(&xs).desired + Share::sum(&ys).desired);
    assert_eq!(Share::sum(&forward).ready, Share::sum(&xs).ready + Share::sum(&ys).ready);
    assert_eq!(Share::sum(&[]), Share::default());
    let with_nothing: Vec<Replicas> = xs.iter().copied().chain([Replicas::default()]).collect();
    assert_eq!(Share::sum(&with_nothing), Share::sum(&xs));
}
