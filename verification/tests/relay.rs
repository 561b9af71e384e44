use canopy::json::Json;
use canopy::relay::cluster::{
    node_pools_check, tailscale_api_proxy_check, workloads_running_check, Determination, Held, Refusal, Wake,
};
use canopy::relay::ingest::{resolve, route, IngestError, Placement, Scope};
use canopy::relay::node_pools::{conditions, grade, message, Condition};
use canopy::relay::protocol::{Filing, FilingTarget, SubstrateInstance};
use canopy::relay::startup::startup;
use canopy::relay::tailscale::{determine, runs_proxy_in_process, ProxyGroup};
use canopy::relay::watch::{
    broken, classify, determine_api_proxy, determine_node_pools, sort_instances, workloads_share, DaemonStatus,
    Database, Deployment, Named, Problem, Reading, Scaled, WatchEvent, WatchState, FAILING_FOR,
};
use canopy::relay::workloads::Replicas;
use canopy::status::CheckResult;

fn from_value(v: &serde_json::Value) -> Json {
    match v {
        serde_json::Value::Null => Json::Null,
        serde_json::Value::Bool(b) => Json::Bool(*b),
        serde_json::Value::Number(n) => Json::Number(n.to_string()),
        serde_json::Value::String(s) => Json::String(s.clone()),
        serde_json::Value::Array(a) => Json::Array(a.iter().map(from_value).collect()),
        serde_json::Value::Object(m) => {
            Json::Object(m.iter().map(|(k, v)| (k.clone(), from_value(v))).collect())
        }
    }
}

fn json(text: &str) -> Json {
    from_value(&serde_json::from_str(text).expect("the fixture is JSON"))
}

/// The text a detail holds at a key.
fn text_at<'a>(detail: &'a Option<Json>, key: &str) -> Option<&'a str> {
    detail.as_ref().and_then(|d| d.get(key)).and_then(|v| v.as_str())
}

fn bool_at(detail: &Option<Json>, key: &str) -> Option<bool> {
    detail.as_ref().and_then(|d| d.get(key)).and_then(|v| v.as_bool())
}

fn only(result: CheckResult, detail: &str) -> Determination {
    Determination {
        instances: vec![SubstrateInstance::only(result, Some(json(detail)))],
        message: "m".into(),
    }
}

#[test]
fn a_first_determination_files() {
    let mut held = Held::new();
    assert!(held.set(workloads_running_check(), only(CheckResult::Passed, "{}")).is_some());
}

#[test]
fn a_changed_result_files_and_an_unchanged_one_waits_for_the_refile() {
    let mut held = Held::new();
    held.set(workloads_running_check(), only(CheckResult::Passed, r#"{"ready": 10}"#));
    assert!(
        held.set(workloads_running_check(), only(CheckResult::Passed, r#"{"ready": 11}"#)).is_none(),
        "detail moving without the result is not a change",
    );
    assert!(held.set(workloads_running_check(), only(CheckResult::Failed, r#"{"ready": 2}"#)).is_some());

    // The refile carries the latest detail.
    let all = held.all();
    assert_eq!(all.len(), 1, "one substrate filing held");
    let Filing::Substrate(filing) = &all[0] else {
        panic!("one substrate filing held");
    };
    let ready = filing.instances[0].detail.as_ref().and_then(|d| d.get("ready"));
    assert!(matches!(ready, Some(Json::Number(n)) if n == "2"));
    assert_eq!(filing.check, "workloads-running");
    assert!(matches!(filing.target, FilingTarget::Cluster));
}

#[test]
fn an_instance_appearing_is_a_change() {
    let mut held = Held::new();
    let pool = |name: &str| SubstrateInstance { label: name.into(), observed: CheckResult::Passed, detail: None };
    held.set(node_pools_check(), Determination { instances: vec![pool("general")], message: String::new() });
    assert!(held
        .set(
            node_pools_check(),
            Determination { instances: vec![pool("general"), pool("gpu")], message: String::new() },
        )
        .is_some());
}

#[test]
fn a_refused_permission_is_broken_and_names_the_refusal() {
    let d = Determination::refused(&Refusal {
        verb: "list",
        resource: "nodepools.karpenter.sh".into(),
        message: "forbidden".into(),
    });
    assert_eq!(d.instances[0].observed, CheckResult::Broken);
    let resource = d.instances[0]
        .detail
        .as_ref()
        .and_then(|d| d.lookup(&["refused", "resource"]))
        .and_then(|v| v.as_str());
    assert_eq!(resource, Some("nodepools.karpenter.sh"));
    assert_eq!(d.message, "the relay is not permitted to list nodepools.karpenter.sh");
}

#[test]
fn the_refile_sends_every_held_check_in_name_order() {
    let mut held = Held::new();
    held.set(workloads_running_check(), only(CheckResult::Passed, "{}"));
    held.set(node_pools_check(), only(CheckResult::Passed, "{}"));
    held.set(tailscale_api_proxy_check(), only(CheckResult::Failed, "{}"));
    let names: Vec<String> = held
        .all()
        .iter()
        .map(|f| match f {
            Filing::Substrate(s) => s.check.clone(),
            Filing::Harvest => String::new(),
        })
        .collect();
    assert_eq!(names, ["node-pools", "tailscale-api-proxy", "workloads-running"]);
}

fn cond(kind: &str, status: &str) -> Condition {
    Condition {
        kind: kind.into(),
        status: status.into(),
        reason: None,
        message: Some(format!("{kind} is {status}")),
    }
}

#[test]
fn conditions_are_read_off_the_status() {
    let pool = json(
        r#"{"status": {"conditions": [
            {"type": "Ready", "status": "True"},
            {"type": "NodeRegistrationHealthy", "status": "False", "reason": "Unhealthy", "message": "nodes did not register"}
        ]}}"#,
    );
    let read = conditions(&pool);
    assert_eq!(read.len(), 2);
    assert_eq!(read[1].reason.as_deref(), Some("Unhealthy"));
}

#[test]
fn a_ready_pool_passes() {
    let i = grade(
        "general",
        &[cond("Ready", "True"), cond("NodeClassReady", "True"), cond("NodeRegistrationHealthy", "True")],
    );
    assert_eq!(i.observed, CheckResult::Passed);
    assert_eq!(i.label, "general");
}

#[test]
fn a_pool_that_is_not_ready_fails() {
    let i = grade("general", &[cond("Ready", "False"), cond("ValidationSucceeded", "False")]);
    assert_eq!(i.observed, CheckResult::Failed);
    assert_eq!(text_at(&i.detail, "condition"), Some("ValidationSucceeded"));
}

#[test]
fn a_pool_whose_launched_nodes_do_not_register_fails() {
    let i = grade("general", &[cond("Ready", "True"), cond("NodeRegistrationHealthy", "False")]);
    assert_eq!(i.observed, CheckResult::Failed);
    assert_eq!(text_at(&i.detail, "condition"), Some("NodeRegistrationHealthy"));
}

#[test]
fn a_pool_not_ready_only_because_of_its_node_class_is_not_failed_for_it() {
    let i = grade("general", &[cond("Ready", "False"), cond("NodeClassReady", "False")]);
    assert_eq!(i.observed, CheckResult::Passed);
}

#[test]
fn a_broken_node_class_does_not_hide_the_pools_own_failure() {
    let i = grade(
        "general",
        &[cond("Ready", "False"), cond("NodeClassReady", "False"), cond("NodeRegistrationHealthy", "False")],
    );
    assert_eq!(i.observed, CheckResult::Failed);
}

#[test]
fn an_unsettled_pool_is_not_a_failure() {
    assert_eq!(grade("new", &[]).observed, CheckResult::Passed);
    assert_eq!(grade("new", &[cond("Ready", "Unknown")]).observed, CheckResult::Passed);
}

#[test]
fn the_message_names_each_failing_pool() {
    let instances = [
        grade("general", &[cond("Ready", "True")]),
        grade("gpu", &[cond("NodeRegistrationHealthy", "False")]),
    ];
    assert_eq!(message(&instances), "gpu: NodeRegistrationHealthy is False");
}

#[test]
fn the_message_counts_the_pools_when_none_fails() {
    let instances = [grade("a", &[]), grade("b", &[])];
    assert_eq!(message(&instances), "2 node pools healthy");
}

#[test]
fn a_failing_pool_with_nothing_said_reads_as_not_ready() {
    let i = grade("quiet", &[Condition { kind: "Ready".into(), status: "False".into(), reason: None, message: None }]);
    assert_eq!(message(&[i]), "quiet: Ready");
    let bare = SubstrateInstance { label: "x".into(), observed: CheckResult::Failed, detail: None };
    assert_eq!(message(&[bare]), "x: not ready");
}

fn group(available: &str, devices: &str) -> Json {
    json(&format!(
        r#"{{
            "spec": {{"type": "kube-apiserver"}},
            "status": {{
                "conditions": [{{"type": "ProxyGroupAvailable", "status": "{available}"}}],
                "devices": {devices}
            }}
        }}"#
    ))
}

const CONNECTED: &str = r#"[{"hostname": "api.tailnet.ts.net", "tailnetIPs": ["100.64.0.1"]}]"#;

#[test]
fn only_an_api_proxy_group_is_read() {
    let egress = json(r#"{"spec": {"type": "egress"}}"#);
    assert!(ProxyGroup::read("egress", &egress).is_none());
    let read = ProxyGroup::read("api", &group("True", CONNECTED)).unwrap();
    assert!(read.available);
    assert_eq!(read.devices, ["api.tailnet.ts.net"]);
}

#[test]
fn a_proxy_group_serving_on_the_tailnet_passes() {
    let g = ProxyGroup::read("api", &group("True", CONNECTED)).unwrap();
    let d = determine(&[g], None).unwrap();
    assert_eq!(d.instances[0].observed, CheckResult::Passed);
    assert_eq!(text_at(&d.instances[0].detail, "mode"), Some("proxy-group"));
}

#[test]
fn a_proxy_group_not_ready_fails_and_says_so() {
    let g = ProxyGroup::read("api", &group("False", CONNECTED)).unwrap();
    let d = determine(&[g], None).unwrap();
    assert_eq!(d.instances[0].observed, CheckResult::Failed);
    assert_eq!(bool_at(&d.instances[0].detail, "ready"), Some(false));
    assert!(d.message.contains("no proxy ready"));
}

#[test]
fn a_proxy_group_ready_but_off_the_tailnet_fails_and_says_so() {
    let off = r#"[{"hostname": "api.tailnet.ts.net", "tailnetIPs": []}]"#;
    let g = ProxyGroup::read("api", &group("True", off)).unwrap();
    let d = determine(&[g], None).unwrap();
    assert_eq!(d.instances[0].observed, CheckResult::Failed);
    assert_eq!(bool_at(&d.instances[0].detail, "ready"), Some(true));
    assert_eq!(bool_at(&d.instances[0].detail, "connected"), Some(false));
    assert!(d.message.contains("not connected to the tailnet"));
}

#[test]
fn a_proxy_group_is_read_in_preference_to_the_operator() {
    let g = ProxyGroup::read("api", &group("True", CONNECTED)).unwrap();
    let d = determine(&[g], Some(("operator", Replicas::new(1, 0)))).unwrap();
    assert_eq!(d.instances[0].observed, CheckResult::Passed);
}

#[test]
fn an_in_process_proxy_is_graded_on_the_operators_readiness() {
    let d = determine(&[], Some(("operator", Replicas::new(1, 1)))).unwrap();
    assert_eq!(d.instances[0].observed, CheckResult::Passed);
    assert_eq!(text_at(&d.instances[0].detail, "mode"), Some("in-process"));
    let connected = d.instances[0].detail.as_ref().and_then(|d| d.get("connected"));
    assert!(matches!(connected, Some(Json::Null)));

    let d = determine(&[], Some(("operator", Replicas::new(1, 0)))).unwrap();
    assert_eq!(d.instances[0].observed, CheckResult::Failed);
    let d = determine(&[], Some(("operator", Replicas::new(0, 0)))).unwrap();
    assert_eq!(d.instances[0].observed, CheckResult::Failed, "an operator scaled away serves no proxy");
}

#[test]
fn a_cluster_with_no_api_proxy_files_nothing() {
    assert!(determine(&[], None).is_none());
}

#[test]
fn the_in_process_modes_are_the_ones_that_serve() {
    assert!(runs_proxy_in_process(Some("true")));
    assert!(runs_proxy_in_process(Some("noauth")));
    assert!(!runs_proxy_in_process(Some("false")));
    assert!(!runs_proxy_in_process(None));
}

#[test]
fn the_proxy_messages_name_the_proxy() {
    let g = ProxyGroup::read("api", &group("True", CONNECTED)).unwrap();
    assert_eq!(determine(&[g], None).unwrap().message, "the API proxy api is serving on the tailnet");
    assert_eq!(
        determine(&[], Some(("ts/operator", Replicas::new(1, 1)))).unwrap().message,
        "the Tailscale operator ts/operator, which serves the API proxy, is ready"
    );
}

#[test]
fn a_watch_failing_past_its_grace_is_broken_and_recovers_on_the_next_event() {
    let mut w = WatchState::new();
    assert!(matches!(w.read(0), Reading::NotYet));
    w.observe(WatchEvent::InitDone);
    assert!(matches!(w.read(0), Reading::Ready));
    w.observe(WatchEvent::Failed(classify("watch", None, "deployments.apps", "reset".into(), 10)));
    w.observe(WatchEvent::Failed(classify("watch", None, "deployments.apps", "again".into(), 50)));
    assert!(matches!(w.read(10 + FAILING_FOR - 1), Reading::Ready), "still within the grace");
    match w.read(10 + FAILING_FOR) {
        Reading::Broken(m) => assert_eq!(m, "again", "timed from the first failure, said by the latest"),
        other => panic!("{other:?}"),
    }
    w.observe(WatchEvent::Changed);
    assert!(matches!(w.read(10 + FAILING_FOR), Reading::Ready));
}

#[test]
fn a_refusal_and_an_absent_kind_are_told_apart() {
    let refused = classify("list", Some((403, "forbidden".into())), "nodepools.karpenter.sh", "e".into(), 0);
    assert!(matches!(&refused, Problem::Refused(r) if r.verb == "list" && r.message == "forbidden"));
    let absent = classify("list", Some((404, "not found".into())), "nodepools.karpenter.sh", "e".into(), 0);
    assert!(matches!(absent, Problem::Absent));
    let watching = classify("watch", Some((404, "not found".into())), "x", "e".into(), 7);
    assert!(matches!(watching, Problem::Failing { since: 7, .. }));
    let mut w = WatchState::new();
    w.observe(WatchEvent::Failed(refused));
    let d = w.read(0).unreadable().unwrap();
    assert_eq!(d.instances[0].observed, CheckResult::Broken);
    assert_eq!(d.message, "the relay is not permitted to list nodepools.karpenter.sh");
}

#[test]
fn a_kind_not_served_is_broken_for_a_check_that_needs_it() {
    assert_eq!(Reading::Absent.unreadable().unwrap().message, "the relay cannot read the cluster: the kind is not served by this cluster");
    let d = broken("gone".into());
    assert_eq!(text_at(&d.instances[0].detail, "message"), Some("gone"));
    assert!(Reading::NotYet.unreadable().is_none());
}

#[test]
fn node_pools_are_filed_in_label_order_and_none_files_nothing() {
    let pool = |name: &str| Named { name: Some(name.into()), data: json("{}") };
    let d = determine_node_pools(Reading::Ready, &[pool("b"), pool("a")]).unwrap();
    let labels: Vec<&str> = d.instances.iter().map(|i| i.label.as_str()).collect();
    assert_eq!(labels, ["a", "b"]);
    assert_eq!(d.message, "2 node pools healthy");
    assert!(determine_node_pools(Reading::Ready, &[]).is_none());
    assert!(determine_node_pools(Reading::Absent, &[pool("a")]).is_none());
}

#[test]
fn sorting_keeps_equal_labels_in_order() {
    let i = |label: &str, observed| SubstrateInstance { label: label.into(), observed, detail: None };
    let sorted = sort_instances(vec![
        i("b", CheckResult::Passed),
        i("a", CheckResult::Failed),
        i("b", CheckResult::Warning),
        i("a", CheckResult::Passed),
    ]);
    let got: Vec<(&str, CheckResult)> = sorted.iter().map(|i| (i.label.as_str(), i.observed)).collect();
    assert_eq!(
        got,
        [("a", CheckResult::Failed), ("a", CheckResult::Passed), ("b", CheckResult::Passed), ("b", CheckResult::Warning)]
    );
}

#[test]
fn the_operator_serving_in_process_is_found_by_its_environment() {
    let operator = Deployment {
        namespace: Some("tailscale".into()),
        name: Some("operator".into()),
        replicas: Some(1),
        ready_replicas: Some(1),
        containers: vec![vec![("APISERVER_PROXY".into(), Some("noauth".into()))]],
    };
    let other = Deployment {
        namespace: Some("apps".into()),
        name: Some("web".into()),
        replicas: None,
        ready_replicas: None,
        containers: vec![vec![("APISERVER_PROXY".into(), Some("false".into()))]],
    };
    let d = determine_api_proxy(Reading::Absent, &[], Reading::Ready, &[other, operator]).unwrap();
    assert_eq!(d.instances[0].observed, CheckResult::Passed);
    assert_eq!(text_at(&d.instances[0].detail, "proxy"), Some("tailscale/operator"));
    assert!(determine_api_proxy(Reading::Absent, &[], Reading::Ready, &[]).is_none());
    assert!(determine_api_proxy(Reading::NotYet, &[], Reading::Ready, &[]).is_none());
}

#[test]
fn the_share_counts_every_kind_and_leaves_out_hibernated_databases() {
    let share = workloads_share(
        (Reading::Ready, Reading::Ready, Reading::Ready, Reading::Ready),
        &[Scaled { replicas: Some(3), ready: Some(2) }],
        &[Scaled { replicas: None, ready: None }],
        &[DaemonStatus { status: Some((4, 4)) }, DaemonStatus { status: None }],
        &[
            Database { instances: Some(2), ready_instances: Some(1), hibernation: None },
            Database { instances: Some(3), ready_instances: Some(0), hibernation: Some("on".into()) },
        ],
    )
    .unwrap();
    assert_eq!((share.desired, share.ready), (10, 7));
    let without_cnpg = workloads_share(
        (Reading::Ready, Reading::Ready, Reading::Ready, Reading::Absent),
        &[],
        &[],
        &[],
        &[Database { instances: Some(2), ready_instances: Some(1), hibernation: None }],
    )
    .unwrap();
    assert_eq!((without_cnpg.desired, without_cnpg.ready), (0, 0));
    let unread = workloads_share((Reading::Absent, Reading::Ready, Reading::Ready, Reading::Ready), &[], &[], &[], &[]);
    assert!(matches!(unread, Err(Some(_))));
}

#[test]
fn a_filing_is_placed_only_on_a_registered_cluster() {
    assert_eq!(resolve(None, &FilingTarget::Cluster), None);
    assert_eq!(resolve(Some(7), &FilingTarget::Cluster), Some(Placement::Cluster(7)));
    assert_eq!(resolve(Some(7), &FilingTarget::Namespace { namespace: "ns".into() }), None);
}

#[test]
fn a_harvest_is_refused_and_a_substrate_filing_carries_provenance_only_on_an_application() {
    assert_eq!(route(&Filing::Harvest, Placement::Group(1), 9), Err(IngestError::HarvestMisplaced));
    assert_eq!(route(&Filing::Harvest, Placement::Application(1), 9), Err(IngestError::HarvestNotWired));
    let filing = node_pools_check().filing(only(CheckResult::Passed, "{}"));
    assert_eq!(route(&filing, Placement::Cluster(2), 9), Ok((Scope::Cluster(2), None)));
    assert_eq!(route(&filing, Placement::Application(3), 9), Ok((Scope::Application(3), Some(9))));
    assert_eq!(Placement::Group(4).scope(), Scope::Group(4));
    assert!(IngestError::HarvestNotWired.message().starts_with("harvest ingestion is not wired yet"));
}

#[test]
fn a_startup_failure_says_the_step_and_the_error() {
    assert_eq!(startup("logging setup failed", "no tty"), "logging setup failed: no tty");
}

fn checks_filed(filings: &[Filing]) -> Vec<String> {
    filings
        .iter()
        .map(|f| match f {
            Filing::Substrate(s) => s.check.clone(),
            Filing::Harvest => String::new(),
        })
        .collect()
}

#[test]
fn an_evaluation_files_what_changed_and_the_refile_files_everything_held() {
    let mut held = Held::new();
    let first = held.step(Wake::Evaluated(vec![
        (node_pools_check(), Some(only(CheckResult::Passed, "{}"))),
        (tailscale_api_proxy_check(), None),
        (workloads_running_check(), Some(only(CheckResult::Passed, "{}"))),
    ]));
    assert_eq!(checks_filed(&first), ["node-pools", "workloads-running"]);

    let second = held.step(Wake::Evaluated(vec![
        (node_pools_check(), Some(only(CheckResult::Passed, r#"{"pools": 2}"#))),
        (tailscale_api_proxy_check(), Some(only(CheckResult::Failed, "{}"))),
        (workloads_running_check(), Some(only(CheckResult::Warning, "{}"))),
    ]));
    assert_eq!(checks_filed(&second), ["tailscale-api-proxy", "workloads-running"]);

    let refile = held.step(Wake::Refile);
    assert_eq!(checks_filed(&refile), ["node-pools", "tailscale-api-proxy", "workloads-running"]);
}
