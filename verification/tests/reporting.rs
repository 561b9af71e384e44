use canopy::artifacts::matching::SemVer;
use canopy::json::Json;
use canopy::reporting::{
    degraded_summary, gone_summary, instances_of, pairs_of_members, versions_and_applications,
    Application, CheckInstance, PairState, ReleaseVersion, ReportingSchemaBuild, Settlement,
};
use canopy::status::CheckResult;

fn build(version_id: u128, built: bool, error: Option<&str>, built_at: i128) -> ReportingSchemaBuild {
    ReportingSchemaBuild {
        check_id: 1,
        group_id: 9,
        version_id,
        application_id: None,
        built,
        error: error.map(str::to_string),
        artifact_ids: vec![],
        built_at,
    }
}

fn release(id: u128, major: u64, minor: u64, patch: u64, published: bool) -> ReleaseVersion {
    ReleaseVersion { id, major, minor, patch, published }
}

fn app(id: u128, software: &str, label: &str) -> Application {
    Application { id, software: software.to_string(), label: label.to_string() }
}

#[test]
fn a_built_pair_drops_off_the_worklist_until_something_changes() {
    let s = Settlement::new(vec![], vec![build(1, true, None, 100)], vec![(1, 90)]);
    assert!(s.settled(1));
    let changed = Settlement::new(vec![], vec![build(1, true, None, 100)], vec![(1, 101)]);
    assert!(!changed.settled(1));
    let asked = Settlement::new(vec![1], vec![build(1, true, None, 100)], vec![]);
    assert!(!asked.settled(1));
    let untried = Settlement::new(vec![], vec![], vec![]);
    assert!(!untried.settled(1));
    let failed = Settlement::new(vec![], vec![build(1, false, Some("boom"), 100)], vec![]);
    assert!(failed.settled(1));
}

#[test]
fn the_latest_build_read_for_a_version_is_the_one_that_counts() {
    let s = Settlement::new(vec![], vec![build(1, true, None, 50), build(1, true, None, 200)], vec![(1, 100)]);
    assert!(s.settled(1));
}

#[test]
fn a_group_s_pairs_are_its_published_running_versions_and_its_plan() {
    let apps = vec![
        app(1, "tamanu", "facility-b"),
        app(2, "tamanu", "central"),
        app(3, "tamanu", "facility-a"),
        app(4, "metabase", "reports"),
        app(5, "tamanu", "drafty"),
        app(6, "tamanu", "unknown-version"),
        app(7, "tamanu", "silent"),
    ];
    let reported = vec![
        (1u128, SemVer { major: 2, minor: 10, patch: 5 }),
        (2, SemVer { major: 2, minor: 9, patch: 0 }),
        (3, SemVer { major: 2, minor: 10, patch: 5 }),
        (4, SemVer { major: 2, minor: 10, patch: 5 }),
        (5, SemVer { major: 2, minor: 11, patch: 0 }),
        (6, SemVer { major: 1, minor: 0, patch: 0 }),
    ];
    let released = vec![
        release(10, 2, 10, 5, true),
        release(11, 2, 9, 0, true),
        release(12, 2, 11, 0, false),
    ];
    let pairs = versions_and_applications(&apps, &reported, &released, Some(release(13, 2, 12, 0, true)));
    let shown: Vec<(u128, Vec<String>)> = pairs.iter().map(|(v, n)| (v.id, n.clone())).collect();
    assert_eq!(
        shown,
        vec![
            (11, vec!["central".to_string()]),
            (10, vec!["facility-a".to_string(), "facility-b".to_string()]),
            (13, vec![]),
        ]
    );
}

#[test]
fn a_plan_to_a_version_already_running_adds_no_pair() {
    let apps = vec![app(1, "tamanu", "central")];
    let reported = vec![(1u128, SemVer { major: 2, minor: 10, patch: 5 })];
    let released = vec![release(10, 2, 10, 5, true)];
    let pairs = versions_and_applications(&apps, &reported, &released, Some(release(10, 2, 10, 5, true)));
    assert_eq!(pairs.len(), 1);
    assert_eq!(pairs[0].1, vec!["central".to_string()]);
}

#[test]
fn each_pair_reads_where_its_build_stands() {
    let versions = vec![
        (release(10, 2, 10, 5, true), vec!["central".to_string()]),
        (release(11, 2, 9, 0, true), vec![]),
        (release(12, 2, 8, 1, true), vec![]),
    ];
    let builds = vec![build(10, true, None, 1), build(11, false, Some("migrations failed"), 1)];
    let pairs = pairs_of_members(9, versions, &builds, &vec![12]);
    assert_eq!(pairs[0].state, PairState::Built);
    assert_eq!(pairs[0].version, "2.10.5");
    assert_eq!(pairs[0].applications, vec!["central".to_string()]);
    assert!(!pairs[0].requested);
    assert_eq!(pairs[1].state, PairState::Failed);
    assert_eq!(pairs[1].error.as_deref(), Some("migrations failed"));
    assert_eq!(pairs[2].state, PairState::Awaiting);
    assert!(pairs[2].requested);
    assert_eq!(pairs[2].group_id, 9);
    assert_eq!(PairState::Awaiting.as_str(), "awaiting");
}

fn detail_text(d: &Option<Json>) -> String {
    format!("{d:?}")
}

#[test]
fn the_check_is_filed_with_one_instance_per_tried_pair() {
    let versions = vec![
        (release(10, 2, 10, 5, true), vec![]),
        (release(11, 2, 9, 0, true), vec![]),
        (release(12, 2, 8, 1, true), vec![]),
        (release(13, 2, 7, 0, true), vec![]),
    ];
    let builds = vec![build(10, true, None, 1), build(11, false, Some("migrations failed"), 1), build(13, false, None, 1)];
    let pairs = pairs_of_members(9, versions, &builds, &vec![]);
    let filed = instances_of(&pairs);
    assert_eq!(filed.len(), 3);
    assert_eq!(filed[0].label, "2.10.5");
    assert_eq!(filed[0].observed, CheckResult::Passed);
    assert!(detail_text(&filed[0].detail).contains("\"version\""));
    assert!(!detail_text(&filed[0].detail).contains("why"));
    assert_eq!(filed[1].observed, CheckResult::Warning);
    assert_eq!(filed[1].detail.as_ref().unwrap().get("why").unwrap().as_str(), Some("migrations failed"));
    assert_eq!(
        filed[2].detail.as_ref().unwrap().get("why").unwrap().as_str(),
        Some("no schema could be built for 2.7.0")
    );
}

fn degraded(label: &str, why: Option<&str>) -> CheckInstance {
    CheckInstance {
        label: label.to_string(),
        observed: CheckResult::Warning,
        detail: Some(Json::Object(match why {
            Some(w) => vec![("why".to_string(), Json::String(w.to_string()))],
            None => vec![],
        })),
    }
}

#[test]
fn the_check_says_which_versions_have_no_schema() {
    assert_eq!(degraded_summary("Alpha", 2, &vec![]), "Reporting schemas are built for every version Alpha runs");
    assert_eq!(
        degraded_summary("Alpha", 2, &vec![degraded("2.10.5", Some("migrations failed"))]),
        "No reporting schema for Alpha on 2.10.5: migrations failed"
    );
    assert_eq!(
        degraded_summary("Alpha", 2, &vec![degraded("2.10.5", None)]),
        "No reporting schema for Alpha on 2.10.5: the build failed"
    );
    assert_eq!(
        degraded_summary("Alpha", 3, &vec![degraded("2.10.5", None), degraded("2.9.0", None)]),
        "No reporting schema for 2 of 3 versions Alpha runs: 2.10.5, 2.9.0"
    );
    assert_eq!(gone_summary("Alpha"), "No reporting schema is owed for Alpha");
}

#[test]
fn a_group_that_stopped_building_files_no_instances() {
    let versions = vec![(release(10, 2, 10, 5, true), vec![])];
    let builds = vec![build(10, false, Some("boom"), 1)];
    let pairs = pairs_of_members(9, versions, &builds, &vec![]);
    assert_eq!(canopy::reporting::sweep_instances(false, &pairs).len(), 0);
    assert_eq!(canopy::reporting::sweep_instances(true, &pairs).len(), 1);
}
